//! Type-safe identifiers for sequencer entities.
use vstd::prelude::*;
use vstd::std_specs::convert::FromSpecImpl;

verus! {

/// Unique identifier for a pattern.
#[derive(Debug, Clone, Copy, PartialEq, Eq, PartialOrd, Ord, Hash, Structural)]
pub struct PatternId(pub u32);

impl PatternId {
    /// Create a new pattern ID.
    pub fn new(id: u32) -> (r: Self)
        ensures
            r.0 == id,
    {
        PatternId(id)
    }
}

/// Unique identifier for a Note Grid graph in the project pool.
#[derive(Debug, Clone, Copy, PartialEq, Eq, PartialOrd, Ord, Hash, Structural)]
pub struct NoteGraphId(pub u32);

impl NoteGraphId {
    /// Create a new note-graph ID.
    pub fn new(id: u32) -> (r: Self)
        ensures
            r.0 == id,
    {
        NoteGraphId(id)
    }
}

/// Unique identifier for a module (node) within a single note graph; only unique within its owning graph.
#[derive(Debug, Clone, Copy, PartialEq, Eq, PartialOrd, Ord, Hash, Structural)]
pub struct NoteModuleId(pub u32);

impl NoteModuleId {
    /// Create a new note-module ID.
    pub fn new(id: u32) -> (r: Self)
        ensures
            r.0 == id,
    {
        NoteModuleId(id)
    }
}

/// Unique identifier for a Mod Grid graph in the project pool.
#[derive(Debug, Clone, Copy, PartialEq, Eq, PartialOrd, Ord, Hash, Structural)]
pub struct ModGraphId(pub u32);

impl ModGraphId {
    /// Create a new mod-graph ID.
    pub fn new(id: u32) -> (r: Self)
        ensures
            r.0 == id,
    {
        ModGraphId(id)
    }
}

/// Unique identifier for a node within a single mod graph; only unique within its owning graph.
#[derive(Debug, Clone, Copy, PartialEq, Eq, PartialOrd, Ord, Hash, Structural)]
pub struct ModNodeId(pub u32);

impl ModNodeId {
    /// Create a new mod-node ID.
    pub fn new(id: u32) -> (r: Self)
        ensures
            r.0 == id,
    {
        ModNodeId(id)
    }
}
// ============================================================================
// INDEX TYPES
// ============================================================================

/// Index for track within a pattern (0-255).
#[derive(Debug, Clone, Copy, PartialEq, Eq, PartialOrd, Ord, Hash, Structural)]
pub struct TrackIndex(u8);

impl View for TrackIndex {
    type V = u8;

    closed spec fn view(&self) -> u8 {
        self.0
    }
}

impl TrackIndex {
    /// First track (index 0).
    pub fn zero() -> (r: Self)
        ensures
            r@ == 0,
    {
        TrackIndex(0)
    }

    /// Create a new track index.
    pub fn new(index: u8) -> (r: Self)
        ensures
            r@ == index,
    {
        TrackIndex(index)
    }

    /// Get the raw u8 value.
    pub fn as_u8(self) -> (r: u8)
        ensures
            r == self@,
    {
        self.0
    }

    /// Get as usize for array indexing.
    pub fn as_usize(self) -> (r: usize)
        ensures
            r == self@,
    {
        self.0 as usize
    }
}

impl Default for TrackIndex {
    fn default() -> (r: Self)
        ensures
            r@ == 0,
    {
        TrackIndex(0)
    }
}

impl From<u8> for TrackIndex {
    fn from(index: u8) -> (r: Self) {
        TrackIndex(index)
    }
}

impl FromSpecImpl<u8> for TrackIndex {
    open spec fn obeys_from_spec() -> bool {
        true
    }

    open spec fn from_spec(index: u8) -> Self {
        TrackIndex::spec_new(index)
    }
}

impl From<usize> for TrackIndex {
    /// Convert an index, clamping to 255.
    fn from(index: usize) -> (r: Self) {
        TrackIndex(if index < 255 { index as u8 } else { 255 })
    }
}

impl FromSpecImpl<usize> for TrackIndex {
    open spec fn obeys_from_spec() -> bool {
        true
    }

    open spec fn from_spec(index: usize) -> Self {
        TrackIndex::spec_new(if index < 255 { index as u8 } else { 255 })
    }
}

impl TrackIndex {
    /// The track index holding `index`.
    pub closed spec fn spec_new(index: u8) -> Self {
        TrackIndex(index)
    }

    /// `spec_new` holds exactly its argument.
    pub broadcast proof fn lemma_spec_new(index: u8)
        ensures
            (#[trigger] TrackIndex::spec_new(index))@ == index,
    {
    }
}

/// Voice/polyphony lane a note occupies in the tracker grid (0-255).
///
/// Purely an editor/layout concept: it groups simultaneous notes into stable
/// tracker columns and is not consulted at playback. Defaults to lane 0.
#[derive(Debug, Clone, Copy, PartialEq, Eq, PartialOrd, Ord, Hash, Structural)]
pub struct NoteLane(u8);

impl View for NoteLane {
    type V = u8;

    closed spec fn view(&self) -> u8 {
        self.0
    }
}

impl NoteLane {
    /// First lane (index 0) — the default column.
    pub fn zero() -> (r: Self)
        ensures
            r@ == 0,
    {
        NoteLane(0)
    }

    /// Create a new note lane.
    pub fn new(index: u8) -> (r: Self)
        ensures
            r@ == index,
    {
        NoteLane(index)
    }

    /// Get the raw u8 value.
    pub fn as_u8(self) -> (r: u8)
        ensures
            r == self@,
    {
        self.0
    }

    /// Get as usize for array/column indexing.
    pub fn as_usize(self) -> (r: usize)
        ensures
            r == self@,
    {
        self.0 as usize
    }

    /// The lane holding `index`.
    pub closed spec fn spec_new(index: u8) -> Self {
        NoteLane(index)
    }

    /// `spec_new` holds exactly its argument.
    pub broadcast proof fn lemma_spec_new(index: u8)
        ensures
            (#[trigger] NoteLane::spec_new(index))@ == index,
    {
    }
}

impl Default for NoteLane {
    fn default() -> (r: Self)
        ensures
            r@ == 0,
    {
        NoteLane(0)
    }
}

impl From<u8> for NoteLane {
    fn from(index: u8) -> (r: Self) {
        NoteLane(index)
    }
}

impl FromSpecImpl<u8> for NoteLane {
    open spec fn obeys_from_spec() -> bool {
        true
    }

    open spec fn from_spec(index: u8) -> Self {
        NoteLane::spec_new(index)
    }
}

impl From<usize> for NoteLane {
    /// Convert an index, clamping to 255.
    fn from(index: usize) -> (r: Self) {
        NoteLane(if index < 255 { index as u8 } else { 255 })
    }
}

impl FromSpecImpl<usize> for NoteLane {
    open spec fn obeys_from_spec() -> bool {
        true
    }

    open spec fn from_spec(index: usize) -> Self {
        NoteLane::spec_new(if index < 255 { index as u8 } else { 255 })
    }
}

/// Index for row within a pattern (0-65535).
#[derive(Debug, Clone, Copy, PartialEq, Eq, PartialOrd, Ord, Hash, Structural)]
pub struct RowIndex(u16);

impl View for RowIndex {
    type V = u16;

    closed spec fn view(&self) -> u16 {
        self.0
    }
}

impl RowIndex {
    /// First row (index 0).
    pub fn zero() -> (r: Self)
        ensures
            r@ == 0,
    {
        RowIndex(0)
    }

    /// Create a new row index.
    pub fn new(index: u16) -> (r: Self)
        ensures
            r@ == index,
    {
        RowIndex(index)
    }

    /// Get the raw u16 value.
    pub fn as_u16(self) -> (r: u16)
        ensures
            r == self@,
    {
        self.0
    }

    /// Get as usize for array indexing.
    pub fn as_usize(self) -> (r: usize)
        ensures
            r == self@,
    {
        self.0 as usize
    }

    /// Get as u32 for calculations.
    pub fn as_u32(self) -> (r: u32)
        ensures
            r == self@,
    {
        self.0 as u32
    }

    /// Advance to next row (saturating at 65535).
    pub fn next(self) -> (r: Self)
        ensures
            r@ == if self@ < u16::MAX { self@ + 1 } else { u16::MAX as int },
    {
        RowIndex(self.0.saturating_add(1))
    }

    /// Go to previous row (saturating at 0).
    pub fn prev(self) -> (r: Self)
        ensures
            r@ == if self@ > 0 { self@ - 1 } else { 0 },
    {
        RowIndex(self.0.saturating_sub(1))
    }

    /// Saturating addition.
    pub fn saturating_add(self, delta: u16) -> (r: Self)
        ensures
            r@ == if self@ + delta <= u16::MAX { self@ + delta } else { u16::MAX as int },
    {
        RowIndex(self.0.saturating_add(delta))
    }

    /// Saturating subtraction.
    pub fn saturating_sub(self, delta: u16) -> (r: Self)
        ensures
            r@ == if self@ >= delta { self@ - delta } else { 0 },
    {
        RowIndex(self.0.saturating_sub(delta))
    }

    /// The row index holding `index`.
    pub closed spec fn spec_new(index: u16) -> Self {
        RowIndex(index)
    }

    /// `spec_new` holds exactly its argument.
    pub broadcast proof fn lemma_spec_new(index: u16)
        ensures
            (#[trigger] RowIndex::spec_new(index))@ == index,
    {
    }
}

impl Default for RowIndex {
    fn default() -> (r: Self)
        ensures
            r@ == 0,
    {
        RowIndex(0)
    }
}

impl From<u16> for RowIndex {
    fn from(index: u16) -> (r: Self) {
        RowIndex(index)
    }
}

impl FromSpecImpl<u16> for RowIndex {
    open spec fn obeys_from_spec() -> bool {
        true
    }

    open spec fn from_spec(index: u16) -> Self {
        RowIndex::spec_new(index)
    }
}

impl From<usize> for RowIndex {
    /// Convert an index, clamping to 65535.
    fn from(index: usize) -> (r: Self) {
        RowIndex(if index < 65535 { index as u16 } else { 65535 })
    }
}

impl FromSpecImpl<usize> for RowIndex {
    open spec fn obeys_from_spec() -> bool {
        true
    }

    open spec fn from_spec(index: usize) -> Self {
        RowIndex::spec_new(if index < 65535 { index as u16 } else { 65535 })
    }
}

/// Number of tracks in a pattern (1-255).
///
/// Clamped to a minimum of 1 — a pattern always has at least one track.
#[derive(Debug, Clone, Copy, PartialEq, Eq, PartialOrd, Ord, Hash)]
pub struct TrackCount(u8);

impl View for TrackCount {
    type V = u8;

    closed spec fn view(&self) -> u8 {
        self.0
    }
}

/// `count`, raised to 1 when it is 0.
pub open spec fn at_least_one(count: int) -> int {
    if count == 0 { 1 } else { count }
}

impl TrackCount {
    #[verifier::type_invariant]
    closed spec fn inv(self) -> bool {
        self.0 >= 1
    }

    /// Single track.
    pub fn one() -> (r: Self)
        ensures
            r@ == 1,
    {
        TrackCount(1)
    }

    /// Four tracks.
    pub fn four() -> (r: Self)
        ensures
            r@ == 4,
    {
        TrackCount(4)
    }

    /// Eight tracks.
    pub fn eight() -> (r: Self)
        ensures
            r@ == 8,
    {
        TrackCount(8)
    }

    /// Sixteen tracks.
    pub fn sixteen() -> (r: Self)
        ensures
            r@ == 16,
    {
        TrackCount(16)
    }

    /// Create a new track count (clamped to minimum 1).
    pub fn new(count: u8) -> (r: Self)
        ensures
            r@ == at_least_one(count as int),
    {
        if count == 0 {
            TrackCount(1)
        } else {
            TrackCount(count)
        }
    }

    /// Get the raw u8 value.
    pub fn as_u8(self) -> (r: u8)
        ensures
            r == self@,
            r >= 1,
    {
        proof {
            use_type_invariant(self);
        }
        self.0
    }

    /// Get as usize for array sizing.
    pub fn as_usize(self) -> (r: usize)
        ensures
            r == self@,
            r >= 1,
    {
        proof {
            use_type_invariant(self);
        }
        self.0 as usize
    }

    /// All track indices, `0..count` in order.
    pub fn indices(self) -> (r: Vec<TrackIndex>)
        ensures
            r.len() == self@,
            forall|i: int| 0 <= i < r.len() ==> (#[trigger] r[i])@ == i,
    {
        let mut out: Vec<TrackIndex> = Vec::new();
        let mut i: u8 = 0;
        while i < self.0
            invariant
                i <= self.0,
                out.len() == i,
                forall|j: int| 0 <= j < out.len() ==> (#[trigger] out[j])@ == j,
            decreases self.0 - i,
        {
            out.push(TrackIndex::new(i));
            i = i + 1;
        }
        out
    }

    /// The track count holding `count`, raised to 1 when it is 0.
    pub closed spec fn spec_new(count: u8) -> Self {
        TrackCount(if count == 0 { 1 } else { count })
    }

    /// `spec_new` clamps its argument to at least one.
    pub broadcast proof fn lemma_spec_new(count: u8)
        ensures
            (#[trigger] TrackCount::spec_new(count))@ == at_least_one(count as int),
    {
    }
}

impl Default for TrackCount {
    fn default() -> (r: Self)
        ensures
            r@ == 4,
    {
        TrackCount::four()
    }
}

impl From<u8> for TrackCount {
    fn from(count: u8) -> (r: Self) {
        TrackCount::new(count)
    }
}

impl FromSpecImpl<u8> for TrackCount {
    open spec fn obeys_from_spec() -> bool {
        true
    }

    open spec fn from_spec(count: u8) -> Self {
        TrackCount::spec_new(count)
    }
}

impl From<usize> for TrackCount {
    /// Convert a count, clamping into 1..=255.
    fn from(count: usize) -> (r: Self) {
        TrackCount::new(if count < 255 { count as u8 } else { 255 })
    }
}

impl FromSpecImpl<usize> for TrackCount {
    open spec fn obeys_from_spec() -> bool {
        true
    }

    open spec fn from_spec(count: usize) -> Self {
        TrackCount::spec_new(if count < 255 { count as u8 } else { 255 })
    }
}

/// Number of rows in a pattern (1-65535).
///
/// Clamped to a minimum of 1 — a pattern always has at least one row.
#[derive(Debug, Clone, Copy, PartialEq, Eq, PartialOrd, Ord, Hash, Structural)]
pub struct RowCount(u16);

impl View for RowCount {
    type V = u16;

    closed spec fn view(&self) -> u16 {
        self.0
    }
}

impl RowCount {
    #[verifier::type_invariant]
    closed spec fn inv(self) -> bool {
        self.0 >= 1
    }

    /// Standard 64 rows.
    pub fn default_64() -> (r: Self)
        ensures
            r@ == 64,
    {
        RowCount(64)
    }

    /// 128 rows.
    pub fn rows_128() -> (r: Self)
        ensures
            r@ == 128,
    {
        RowCount(128)
    }

    /// 256 rows.
    pub fn rows_256() -> (r: Self)
        ensures
            r@ == 256,
    {
        RowCount(256)
    }

    /// Create a new row count (clamped to minimum 1).
    pub fn new(count: u16) -> (r: Self)
        ensures
            r@ == at_least_one(count as int),
    {
        if count == 0 {
            RowCount(1)
        } else {
            RowCount(count)
        }
    }

    /// Get the raw u16 value.
    pub fn as_u16(self) -> (r: u16)
        ensures
            r == self@,
            r >= 1,
    {
        proof {
            use_type_invariant(self);
        }
        self.0
    }

    /// Get as usize for array sizing.
    pub fn as_usize(self) -> (r: usize)
        ensures
            r == self@,
            r >= 1,
    {
        proof {
            use_type_invariant(self);
        }
        self.0 as usize
    }

    /// All row indices, `0..count` in order.
    pub fn indices(self) -> (r: Vec<RowIndex>)
        ensures
            r.len() == self@,
            forall|i: int| 0 <= i < r.len() ==> (#[trigger] r[i])@ == i,
    {
        let mut out: Vec<RowIndex> = Vec::new();
        let mut i: u16 = 0;
        while i < self.0
            invariant
                i <= self.0,
                out.len() == i,
                forall|j: int| 0 <= j < out.len() ==> (#[trigger] out[j])@ == j,
            decreases self.0 - i,
        {
            out.push(RowIndex::new(i));
            i = i + 1;
        }
        out
    }

    /// The row count holding `count`, raised to 1 when it is 0.
    pub closed spec fn spec_new(count: u16) -> Self {
        RowCount(if count == 0 { 1 } else { count })
    }

    /// `spec_new` clamps its argument to at least one.
    pub broadcast proof fn lemma_spec_new(count: u16)
        ensures
            (#[trigger] RowCount::spec_new(count))@ == at_least_one(count as int),
    {
    }
}

impl Default for RowCount {
    fn default() -> (r: Self)
        ensures
            r@ == 64,
    {
        RowCount::default_64()
    }
}

impl From<u16> for RowCount {
    fn from(count: u16) -> (r: Self) {
        RowCount::new(count)
    }
}

impl FromSpecImpl<u16> for RowCount {
    open spec fn obeys_from_spec() -> bool {
        true
    }

    open spec fn from_spec(count: u16) -> Self {
        RowCount::spec_new(count)
    }
}

impl From<usize> for RowCount {
    /// Convert a count, clamping into 1..=65535.
    fn from(count: usize) -> (r: Self) {
        RowCount::new(if count < 65535 { count as u16 } else { 65535 })
    }
}

impl FromSpecImpl<usize> for RowCount {
    open spec fn obeys_from_spec() -> bool {
        true
    }

    open spec fn from_spec(count: usize) -> Self {
        RowCount::spec_new(if count < 65535 { count as u16 } else { 65535 })
    }
}

/// Ticks per row in song tick units (960 PPQN).
///
/// Controls how many song ticks pass before advancing to the next row.
/// Default: 240 song ticks/row = 4 rows per quarter note (16th note resolution).
/// [`TicksPerRow::new`] raises values below 40 to 40; the raw `From<u16>`
/// conversion keeps its argument unchanged.
#[derive(Debug, Clone, Copy, PartialEq, Eq, PartialOrd, Ord, Hash, Structural)]
pub struct TicksPerRow(u16);

impl View for TicksPerRow {
    type V = u16;

    closed spec fn view(&self) -> u16 {
        self.0
    }
}

impl TicksPerRow {
    /// Default: 240 song ticks per row.
    pub fn default_ticks() -> (r: Self)
        ensures
            r@ == 240,
    {
        TicksPerRow(240)
    }

    /// Minimum (fastest): 40 song ticks per row.
    pub fn min_ticks() -> (r: Self)
        ensures
            r@ == 40,
    {
        TicksPerRow(40)
    }

    /// Maximum (slowest): 1240 song ticks per row.
    pub fn max_ticks() -> (r: Self)
        ensures
            r@ == 1240,
    {
        TicksPerRow(1240)
    }

    /// Create a new ticks per row value from song ticks (at least 40, which
    /// guards the row/tick conversions against division by zero).
    pub fn new(song_ticks: u16) -> (r: Self)
        ensures
            r@ == if song_ticks < 40 { 40 } else { song_ticks },
    {
        if song_ticks < 40 {
            TicksPerRow(40)
        } else {
            TicksPerRow(song_ticks)
        }
    }

    /// Get the raw u16 value (song ticks).
    pub fn as_u16(self) -> (r: u16)
        ensures
            r == self@,
    {
        self.0
    }

    /// Get as u32 for calculations.
    pub fn as_u32(self) -> (r: u32)
        ensures
            r == self@,
    {
        self.0 as u32
    }

    /// The value holding `ticks` unchanged.
    pub closed spec fn spec_raw(ticks: u16) -> Self {
        TicksPerRow(ticks)
    }

    /// `spec_raw` holds exactly its argument.
    pub broadcast proof fn lemma_spec_raw(ticks: u16)
        ensures
            (#[trigger] TicksPerRow::spec_raw(ticks))@ == ticks,
    {
    }
}

impl Default for TicksPerRow {
    fn default() -> (r: Self)
        ensures
            r@ == 240,
    {
        TicksPerRow::default_ticks()
    }
}

impl From<u16> for TicksPerRow {
    /// Wrap a raw tick count without clamping.
    fn from(ticks: u16) -> (r: Self) {
        TicksPerRow(ticks)
    }
}

impl FromSpecImpl<u16> for TicksPerRow {
    open spec fn obeys_from_spec() -> bool {
        true
    }

    open spec fn from_spec(ticks: u16) -> Self {
        TicksPerRow::spec_raw(ticks)
    }
}

/// Unique identifier for a track.
#[derive(Debug, Clone, Copy, PartialEq, Eq, PartialOrd, Ord, Hash, Structural)]
pub struct TrackId(pub u16);

impl TrackId {
    /// Create a new track ID.
    pub fn new(id: u16) -> (r: Self)
        ensures
            r.0 == id,
    {
        TrackId(id)
    }

    /// Return this ID as an array index.
    pub fn as_usize(self) -> (r: usize)
        ensures
            r == self.0,
    {
        self.0 as usize
    }
}

/// Unique identifier for an instrument, shared by the sequencer data model,
/// the engine and the project format.
#[derive(Debug, Clone, Copy, PartialEq, Eq, PartialOrd, Ord, Hash, Structural)]
pub struct InstrumentId(pub u64);

/// The instrument id a sequencer cell or track refers to.
pub type SeqInstrumentId = InstrumentId;

impl InstrumentId {
    /// Create a new instrument ID.
    pub fn new(id: u64) -> (r: Self)
        ensures
            r.0 == id,
    {
        InstrumentId(id)
    }

    /// The raw id.
    pub fn as_u64(self) -> (r: u64)
        ensures
            r == self.0,
    {
        self.0
    }
}

impl Default for InstrumentId {
    fn default() -> (r: Self)
        ensures
            r.0 == 0,
    {
        InstrumentId(0)
    }
}

/// Unique identifier for a return bus (effect-send destination).
#[derive(Debug, Clone, Copy, PartialEq, Eq, Hash, Structural)]
pub struct ReturnBusId(pub u16);

impl ReturnBusId {
    /// Create a new return-bus ID.
    pub fn new(id: u16) -> (r: Self)
        ensures
            r.0 == id,
    {
        ReturnBusId(id)
    }
}

impl Default for ReturnBusId {
    fn default() -> (r: Self)
        ensures
            r.0 == 0,
    {
        ReturnBusId(0)
    }
}

/// Unique identifier for a note within a pattern.
/// Used for selection, undo/redo, and editing operations.
#[derive(Debug, Clone, Copy, PartialEq, Eq, Hash, Structural)]
pub struct NoteId(pub u64);

impl NoteId {
    /// Create a new note ID.
    pub fn new(id: u64) -> (r: Self)
        ensures
            r.0 == id,
    {
        NoteId(id)
    }
}

} // verus!
