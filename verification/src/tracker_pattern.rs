//! Tracker-style pattern with tracks and rows.
//!
//! - [`TrackerPattern`] contains multiple [`Track`]s
//! - Each [`Track`] contains multiple [`Row`]s (one per pattern row)
//! - Each [`Row`] contains a [`Cell`] and optional effects
//!
//! Track index maps directly to voice index, so each track is monophonic: a new
//! note on the same track automatically cuts the previous note.
use vstd::prelude::*;

use crate::effects::EffectCommand;
use crate::ids::{PatternId, RowCount, RowIndex, SeqInstrumentId, TicksPerRow, TrackCount, TrackIndex};
use crate::pitch::{Pitch, Velocity};
use crate::time::PatternTick;

verus! {

/// Cell content in a tracker row.
#[derive(Debug, Clone, PartialEq)]
pub enum Cell {
    /// Empty cell - nothing happens, previous note continues playing.
    Empty,
    /// A note that triggers the voice.
    Note {
        /// Pitch to play.
        pitch: Pitch,
        /// Instrument for this note; `None` continues with the previous
        /// instrument on this voice (inherit).
        instrument: Option<SeqInstrumentId>,
        /// Velocity for the note; `None` uses the default (full volume) or
        /// lets effects control it.
        velocity: Option<Velocity>,
    },
    /// Explicit note-off (`===` in tracker). Only created for an explicit
    /// key-off marker; a new note on the same track cuts the previous one on
    /// its own.
    NoteOff,
}

/// A single row in a track.
#[derive(Debug, Clone)]
pub struct Row {
    /// Cell content (note, note-off, or empty).
    pub cell: Cell,
    /// Effects on this row.
    pub effects: Vec<EffectCommand>,
}

/// Whether a row has no cell content and no effects.
pub open spec fn row_is_empty(row: Row) -> bool {
    row.cell is Empty && row.effects@.len() == 0
}

/// Whether position `(t1, r1)` comes strictly before `(t2, r2)` in
/// track-major order.
pub open spec fn position_before(t1: int, r1: int, t2: int, r2: int) -> bool {
    t1 < t2 || (t1 == t2 && r1 < r2)
}

/// A single track in a pattern: one voice, all rows stored explicitly.
#[derive(Debug, Clone)]
pub struct Track {
    rows: Vec<Row>,
}

impl View for Track {
    type V = Seq<Row>;

    closed spec fn view(&self) -> Seq<Row> {
        self.rows@
    }
}

/// A tracker-style pattern with tracks and rows.
///
/// Each track maps to a single voice (`TrackIndex` N → `VoiceIndex` N).
/// All rows are explicitly stored, even empty ones.
#[derive(Debug, Clone)]
pub struct TrackerPattern {
    id: PatternId,
    name: String,
    num_rows: RowCount,
    ticks_per_row: TicksPerRow,
    tracks: Vec<Track>,
}

impl Cell {
    /// Create a note cell with instrument.
    pub fn note(pitch: Pitch, instrument: SeqInstrumentId) -> (r: Self)
        ensures
            r == (Cell::Note { pitch, instrument: Some(instrument), velocity: None }),
    {
        Cell::Note { pitch, instrument: Some(instrument), velocity: None }
    }

    /// Create a note cell that inherits the previous instrument (a tracker
    /// file's instrument 0, "keep whatever was playing").
    pub fn note_inherit_instrument(pitch: Pitch) -> (r: Self)
        ensures
            r == (Cell::Note { pitch, instrument: None, velocity: None }),
    {
        Cell::Note { pitch, instrument: None, velocity: None }
    }

    /// Create a note cell with full control over all fields.
    pub fn note_full(pitch: Pitch, instrument: Option<SeqInstrumentId>, velocity: Option<Velocity>) -> (r: Self)
        ensures
            r == (Cell::Note { pitch, instrument, velocity }),
    {
        Cell::Note { pitch, instrument, velocity }
    }

    /// Create an explicit note-off (only for explicit key-offs from the
    /// original file, never for implicit note cuts).
    pub fn note_off() -> (r: Self)
        ensures
            r == Cell::NoteOff,
    {
        Cell::NoteOff
    }

    /// Check if this cell is empty.
    pub fn is_empty(&self) -> (r: bool)
        ensures
            r == (*self is Empty),
    {
        match self {
            Cell::Empty => true,
            _ => false,
        }
    }

    /// Check if this cell contains a note.
    pub fn is_note(&self) -> (r: bool)
        ensures
            r == (*self is Note),
    {
        match self {
            Cell::Note { .. } => true,
            _ => false,
        }
    }

    /// Check if this cell is a note-off.
    pub fn is_note_off(&self) -> (r: bool)
        ensures
            r == (*self is NoteOff),
    {
        match self {
            Cell::NoteOff => true,
            _ => false,
        }
    }

    /// Get pitch if this is a note.
    pub fn pitch(&self) -> (r: Option<Pitch>)
        ensures
            r == (match *self {
                Cell::Note { pitch, .. } => Some(pitch),
                _ => None,
            }),
    {
        match self {
            Cell::Note { pitch, .. } => Some(*pitch),
            _ => None,
        }
    }

    /// Get instrument if this is a note with explicit instrument.
    pub fn instrument(&self) -> (r: Option<SeqInstrumentId>)
        ensures
            r == (match *self {
                Cell::Note { instrument, .. } => instrument,
                _ => None,
            }),
    {
        match self {
            Cell::Note { instrument, .. } => *instrument,
            _ => None,
        }
    }

    /// Get velocity if this is a note with explicit velocity.
    pub fn velocity(&self) -> (r: Option<Velocity>)
        ensures
            r == (match *self {
                Cell::Note { velocity, .. } => velocity,
                _ => None,
            }),
    {
        match self {
            Cell::Note { velocity, .. } => *velocity,
            _ => None,
        }
    }
}

impl Default for Cell {
    fn default() -> (r: Self)
        ensures
            r == Cell::Empty,
    {
        Cell::Empty
    }
}

impl Row {
    /// Create a new row with a note.
    pub fn with_note(pitch: Pitch, instrument: SeqInstrumentId) -> (r: Self)
        ensures
            r.cell == (Cell::Note { pitch, instrument: Some(instrument), velocity: None }),
            r.effects@.len() == 0,
    {
        Row { cell: Cell::note(pitch, instrument), effects: Vec::new() }
    }

    /// Check if this row is completely empty (no cell content, no effects).
    pub fn is_empty(&self) -> (r: bool)
        ensures
            r == row_is_empty(*self),
    {
        self.cell.is_empty() && self.effects.len() == 0
    }

    /// Check if this row has a note.
    pub fn has_note(&self) -> (r: bool)
        ensures
            r == (self.cell is Note),
    {
        self.cell.is_note()
    }

    /// Check if this row has a note-off.
    pub fn has_note_off(&self) -> (r: bool)
        ensures
            r == (self.cell is NoteOff),
    {
        self.cell.is_note_off()
    }

    /// Check if this row has effects.
    pub fn has_effects(&self) -> (r: bool)
        ensures
            r == (self.effects@.len() > 0),
    {
        self.effects.len() != 0
    }
}

impl Default for Row {
    fn default() -> (r: Self)
        ensures
            r.cell == Cell::Empty,
            r.effects@.len() == 0,
    {
        Row { cell: Cell::Empty, effects: Vec::new() }
    }
}

impl Track {
    /// Create a new track with `num_rows` empty rows.
    pub fn new(num_rows: RowCount) -> (r: Self)
        ensures
            r@.len() == num_rows@,
            forall|i: int| 0 <= i < r@.len() ==> row_is_empty(#[trigger] r@[i]),
    {
        let n = num_rows.as_usize();
        let mut rows: Vec<Row> = Vec::new();
        let mut i: usize = 0;
        while i < n
            invariant
                i <= n,
                rows@.len() == i,
                forall|j: int| 0 <= j < rows@.len() ==> row_is_empty(#[trigger] rows@[j]),
            decreases n - i,
        {
            rows.push(Row::default());
            i = i + 1;
        }
        Track { rows }
    }

    /// Get a row by index.
    pub fn row(&self, index: RowIndex) -> (r: &Row)
        requires
            index@ < self@.len(),
        ensures
            *r == self@[index@ as int],
    {
        &self.rows[index.as_usize()]
    }

    /// Get a mutable row by index.
    pub fn row_mut(&mut self, index: RowIndex) -> (r: &mut Row)
        requires
            index@ < old(self)@.len(),
        ensures
            *r == old(self)@[index@ as int],
            final(self)@ == old(self)@.update(index@ as int, *final(r)),
    {
        &mut self.rows[index.as_usize()]
    }

    /// Get all rows.
    pub fn rows(&self) -> (r: &[Row])
        ensures
            r@ == self@,
    {
        self.rows.as_slice()
    }

    /// Get the number of rows.
    pub fn len(&self) -> (r: usize)
        ensures
            r == self@.len(),
    {
        self.rows.len()
    }

    /// Check if the track is empty (no rows).
    pub fn is_empty(&self) -> (r: bool)
        ensures
            r == (self@.len() == 0),
    {
        self.rows.len() == 0
    }
}

impl TrackerPattern {
    /// The grid of rows: `grid()[t][r]` is row `r` of track `t`.
    pub closed spec fn grid(&self) -> Seq<Seq<Row>> {
        self.tracks@.map_values(|t: Track| t@)
    }

    /// Rows per track.
    pub closed spec fn spec_num_rows(&self) -> nat {
        self.num_rows@ as nat
    }

    /// The pattern ID.
    pub closed spec fn spec_id(&self) -> PatternId {
        self.id
    }

    /// The pattern name.
    pub closed spec fn spec_name(&self) -> Seq<char> {
        self.name@
    }

    /// Song ticks per row.
    pub closed spec fn spec_ticks_per_row(&self) -> u16 {
        self.ticks_per_row@
    }

    /// Well-formed: between 1 and 255 tracks, each holding exactly
    /// `num_rows` rows.
    pub closed spec fn wf(&self) -> bool {
        &&& 1 <= self.tracks@.len() <= 255
        &&& self.num_rows@ >= 1
        &&& forall|t: int| 0 <= t < self.tracks@.len() ==> (#[trigger] self.tracks@[t])@.len()
            == self.num_rows@
    }

    /// Whether `(track, row)` addresses a stored row.
    pub open spec fn in_bounds(&self, track: int, row: int) -> bool {
        &&& 0 <= track < self.grid().len()
        &&& 0 <= row < self.spec_num_rows()
    }

    /// The grid after replacing row `(t, r)` by `row`.
    pub open spec fn grid_with(&self, t: int, r: int, row: Row) -> Seq<Seq<Row>> {
        self.grid().update(t, self.grid()[t].update(r, row))
    }

    /// The shape of a well-formed grid: `grid()[t]` has `spec_num_rows()` rows.
    pub proof fn lemma_wf_shape(&self)
        requires
            self.wf(),
        ensures
            1 <= self.grid().len() <= 255,
            self.spec_num_rows() >= 1,
            forall|t: int| 0 <= t < self.grid().len() ==> (#[trigger] self.grid()[t]).len()
                == self.spec_num_rows(),
    {
    }

    /// Create a new empty pattern.
    pub fn new(id: PatternId, num_tracks: TrackCount, num_rows: RowCount) -> (r: Self)
        ensures
            r.wf(),
            r.spec_id() == id,
            r.spec_name().len() == 0,
            r.grid().len() == num_tracks@,
            r.spec_num_rows() == num_rows@,
            r.spec_ticks_per_row() == 240,
            forall|t: int, i: int| r.in_bounds(t, i) ==> row_is_empty(#[trigger] r.grid()[t][i]),
    {
        let n = num_tracks.as_usize();
        let mut tracks: Vec<Track> = Vec::new();
        let mut i: usize = 0;
        while i < n
            invariant
                i <= n,
                n == num_tracks@,
                tracks@.len() == i,
                forall|j: int| 0 <= j < tracks@.len() ==> (#[trigger] tracks@[j])@.len() == num_rows@,
                forall|j: int, k: int|
                    0 <= j < tracks@.len() && 0 <= k < tracks@[j]@.len() ==> row_is_empty(
                        #[trigger] tracks@[j]@[k],
                    ),
            decreases n - i,
        {
            tracks.push(Track::new(num_rows));
            i = i + 1;
        }
        let _ = num_rows.as_u16();
        let r = TrackerPattern {
            id,
            name: String::new(),
            num_rows,
            ticks_per_row: TicksPerRow::default_ticks(),
            tracks,
        };
        assert forall|t: int, k: int| r.in_bounds(t, k) implies row_is_empty(#[trigger] r.grid()[t][k]) by {
            assert(r.grid()[t] == r.tracks@[t]@);
        }
        r
    }

    /// Get the pattern ID.
    pub fn id(&self) -> (r: PatternId)
        ensures
            r == self.spec_id(),
    {
        self.id
    }

    /// Get the pattern name.
    pub fn name(&self) -> (r: &str)
        ensures
            r@ == self.spec_name(),
    {
        self.name.as_str()
    }

    /// Set the pattern name.
    pub fn set_name(&mut self, name: String)
        requires
            old(self).wf(),
        ensures
            final(self).wf(),
            final(self).spec_name() == name@,
            final(self).grid() == old(self).grid(),
            final(self).spec_id() == old(self).spec_id(),
            final(self).spec_num_rows() == old(self).spec_num_rows(),
            final(self).spec_ticks_per_row() == old(self).spec_ticks_per_row(),
    {
        self.name = name;
    }

    /// Get the number of tracks.
    pub fn num_tracks(&self) -> (r: TrackCount)
        requires
            self.wf(),
        ensures
            r@ == self.grid().len(),
    {
        TrackCount::new(self.tracks.len() as u8)
    }

    /// Get the number of rows.
    pub fn num_rows(&self) -> (r: RowCount)
        ensures
            r@ == self.spec_num_rows(),
    {
        self.num_rows
    }

    /// Get ticks per row.
    pub fn ticks_per_row(&self) -> (r: TicksPerRow)
        ensures
            r@ == self.spec_ticks_per_row(),
    {
        self.ticks_per_row
    }

    /// Set ticks per row.
    pub fn set_ticks_per_row(&mut self, ticks: TicksPerRow)
        requires
            old(self).wf(),
        ensures
            final(self).wf(),
            final(self).spec_ticks_per_row() == ticks@,
            final(self).grid() == old(self).grid(),
            final(self).spec_id() == old(self).spec_id(),
            final(self).spec_name() == old(self).spec_name(),
            final(self).spec_num_rows() == old(self).spec_num_rows(),
    {
        self.ticks_per_row = ticks;
    }

    /// Total pattern length in ticks: rows × ticks per row.
    pub fn length_ticks(&self) -> (r: PatternTick)
        ensures
            r.0 == self.spec_num_rows() * self.spec_ticks_per_row(),
    {
        let rows = self.num_rows.as_usize() as u32;
        let tpr = self.ticks_per_row.as_u32();
        assert(rows * tpr <= 65535 * 65535) by (nonlinear_arith)
            requires rows <= 65535, tpr <= 65535;
        PatternTick(rows * tpr)
    }

    /// Get a row at the specified position.
    pub fn get(&self, track: TrackIndex, row: RowIndex) -> (r: &Row)
        requires
            self.wf(),
            self.in_bounds(track@ as int, row@ as int),
        ensures
            *r == self.grid()[track@ as int][row@ as int],
    {
        self.tracks[track.as_usize()].row(row)
    }

    /// Get a mutable row at the specified position.
    pub fn get_mut(&mut self, track: TrackIndex, row: RowIndex) -> (r: &mut Row)
        requires
            old(self).wf(),
            old(self).in_bounds(track@ as int, row@ as int),
        ensures
            *r == old(self).grid()[track@ as int][row@ as int],
            final(self).wf(),
            final(self).grid() == old(self).grid_with(track@ as int, row@ as int, *final(r)),
            final(self).spec_id() == old(self).spec_id(),
            final(self).spec_name() == old(self).spec_name(),
            final(self).spec_num_rows() == old(self).spec_num_rows(),
            final(self).spec_ticks_per_row() == old(self).spec_ticks_per_row(),
    {
        let t = track.as_usize();
        self.tracks[t].row_mut(row)
    }

    /// Set the cell at the specified position.
    pub fn set_cell(&mut self, track: TrackIndex, row: RowIndex, cell: Cell)
        requires
            old(self).wf(),
            old(self).in_bounds(track@ as int, row@ as int),
        ensures
            final(self).wf(),
            final(self).grid() == old(self).grid_with(
                track@ as int,
                row@ as int,
                Row { cell, effects: old(self).grid()[track@ as int][row@ as int].effects },
            ),
            final(self).spec_id() == old(self).spec_id(),
            final(self).spec_name() == old(self).spec_name(),
            final(self).spec_num_rows() == old(self).spec_num_rows(),
            final(self).spec_ticks_per_row() == old(self).spec_ticks_per_row(),
    {
        let slot = self.get_mut(track, row);
        slot.cell = cell;
    }

    /// Set effects at the specified position.
    pub fn set_effects(&mut self, track: TrackIndex, row: RowIndex, effects: Vec<EffectCommand>)
        requires
            old(self).wf(),
            old(self).in_bounds(track@ as int, row@ as int),
        ensures
            final(self).wf(),
            final(self).grid() == old(self).grid_with(
                track@ as int,
                row@ as int,
                Row { cell: old(self).grid()[track@ as int][row@ as int].cell, effects },
            ),
            final(self).spec_id() == old(self).spec_id(),
            final(self).spec_name() == old(self).spec_name(),
            final(self).spec_num_rows() == old(self).spec_num_rows(),
            final(self).spec_ticks_per_row() == old(self).spec_ticks_per_row(),
    {
        let slot = self.get_mut(track, row);
        slot.effects = effects;
    }

    /// Add an effect at the specified position.
    pub fn add_effect(&mut self, track: TrackIndex, row: RowIndex, effect: EffectCommand)
        requires
            old(self).wf(),
            old(self).in_bounds(track@ as int, row@ as int),
        ensures
            final(self).wf(),
            final(self).grid().len() == old(self).grid().len(),
            forall|t: int, i: int| #![trigger final(self).grid()[t][i]]
                final(self).in_bounds(t, i) && !(t == track@ && i == row@) ==> final(self).grid()[t][i]
                    == old(self).grid()[t][i],
            final(self).grid()[track@ as int][row@ as int].cell == old(self).grid()[track@ as int][row@ as int].cell,
            final(self).grid()[track@ as int][row@ as int].effects@ == old(self).grid()[track@ as int][row@ as int].effects@.push(effect),
            final(self).spec_id() == old(self).spec_id(),
            final(self).spec_name() == old(self).spec_name(),
            final(self).spec_num_rows() == old(self).spec_num_rows(),
            final(self).spec_ticks_per_row() == old(self).spec_ticks_per_row(),
    {
        let slot = self.get_mut(track, row);
        slot.effects.push(effect);
    }

    /// Clear the cell at the specified position (set to Empty).
    pub fn clear_cell(&mut self, track: TrackIndex, row: RowIndex)
        requires
            old(self).wf(),
            old(self).in_bounds(track@ as int, row@ as int),
        ensures
            final(self).wf(),
            final(self).grid() == old(self).grid_with(
                track@ as int,
                row@ as int,
                Row { cell: Cell::Empty, effects: old(self).grid()[track@ as int][row@ as int].effects },
            ),
            final(self).spec_id() == old(self).spec_id(),
            final(self).spec_name() == old(self).spec_name(),
            final(self).spec_num_rows() == old(self).spec_num_rows(),
            final(self).spec_ticks_per_row() == old(self).spec_ticks_per_row(),
    {
        let slot = self.get_mut(track, row);
        slot.cell = Cell::Empty;
    }

    /// Clear effects at the specified position.
    pub fn clear_effects(&mut self, track: TrackIndex, row: RowIndex)
        requires
            old(self).wf(),
            old(self).in_bounds(track@ as int, row@ as int),
        ensures
            final(self).wf(),
            final(self).grid().len() == old(self).grid().len(),
            forall|t: int, i: int| #![trigger final(self).grid()[t][i]]
                final(self).in_bounds(t, i) && !(t == track@ && i == row@) ==> final(self).grid()[t][i]
                    == old(self).grid()[t][i],
            final(self).grid()[track@ as int][row@ as int].cell == old(self).grid()[track@ as int][row@ as int].cell,
            final(self).grid()[track@ as int][row@ as int].effects@.len() == 0,
            final(self).spec_id() == old(self).spec_id(),
            final(self).spec_name() == old(self).spec_name(),
            final(self).spec_num_rows() == old(self).spec_num_rows(),
            final(self).spec_ticks_per_row() == old(self).spec_ticks_per_row(),
    {
        let slot = self.get_mut(track, row);
        slot.effects.clear();
    }

    /// Get a track by index.
    pub fn track(&self, index: TrackIndex) -> (r: &Track)
        requires
            index@ < self.grid().len(),
        ensures
            r@ == self.grid()[index@ as int],
    {
        &self.tracks[index.as_usize()]
    }

    /// Get a mutable track by index (its row count cannot change).
    pub fn track_mut(&mut self, index: TrackIndex) -> (r: &mut Track)
        requires
            old(self).wf(),
            index@ < old(self).grid().len(),
        ensures
            r@ == old(self).grid()[index@ as int],
            final(r)@.len() == r@.len() ==> final(self).wf(),
            final(self).grid() == old(self).grid().update(index@ as int, final(r)@),
            final(self).spec_id() == old(self).spec_id(),
            final(self).spec_name() == old(self).spec_name(),
            final(self).spec_num_rows() == old(self).spec_num_rows(),
            final(self).spec_ticks_per_row() == old(self).spec_ticks_per_row(),
    {
        &mut self.tracks[index.as_usize()]
    }

    /// Get all tracks.
    pub fn tracks(&self) -> (r: &[Track])
        ensures
            r@.map_values(|t: Track| t@) == self.grid(),
    {
        self.tracks.as_slice()
    }

    /// All rows at one row index across all tracks, in track order.
    pub fn row_across_tracks(&self, row: RowIndex) -> (r: Vec<(TrackIndex, &Row)>)
        requires
            self.wf(),
            row@ < self.spec_num_rows(),
        ensures
            r@.len() == self.grid().len(),
            forall|i: int|
                0 <= i < r@.len() ==> (#[trigger] r@[i]).0@ == i && *r@[i].1 == self.grid()[i][row@ as int],
    {
        let mut out: Vec<(TrackIndex, &Row)> = Vec::new();
        let n = self.tracks.len();
        let mut t: usize = 0;
        while t < n
            invariant
                self.wf(),
                row@ < self.spec_num_rows(),
                n == self.tracks@.len(),
                t <= n,
                out@.len() == t,
                forall|i: int|
                    0 <= i < out@.len() ==> (#[trigger] out@[i]).0@ == i && *out@[i].1 == self.grid()[i][row@ as int],
            decreases n - t,
        {
            let track = &self.tracks[t];
            let rr = track.row(row);
            out.push((TrackIndex::new(t as u8), rr));
            t = t + 1;
        }
        out
    }

    /// All non-empty rows (a note, a note-off, or effects) with their
    /// positions, in track order and, within a track, row order.
    pub fn non_empty_rows(&self) -> (r: Vec<(TrackIndex, RowIndex, &Row)>)
        requires
            self.wf(),
        ensures
            forall|i: int|
                0 <= i < r@.len() ==> {
                    let (t, k, row) = #[trigger] r@[i];
                    &&& self.in_bounds(t@ as int, k@ as int)
                    &&& *row == self.grid()[t@ as int][k@ as int]
                    &&& !row_is_empty(*row)
                },
            forall|i: int, j: int|
                0 <= i < j < r@.len() ==> position_before(
                    #[trigger] r@[i].0@ as int,
                    r@[i].1@ as int,
                    #[trigger] r@[j].0@ as int,
                    r@[j].1@ as int,
                ),
            forall|t: int, k: int|
                self.in_bounds(t, k) && !row_is_empty(#[trigger] self.grid()[t][k]) ==> exists|i: int|
                    0 <= i < r@.len() && (#[trigger] r@[i]).0@ == t && r@[i].1@ == k,
    {
        let mut out: Vec<(TrackIndex, RowIndex, &Row)> = Vec::new();
        let n = self.tracks.len();
        let m = self.num_rows.as_usize();
        let mut t: usize = 0;
        while t < n
            invariant
                self.wf(),
                n == self.tracks@.len(),
                m == self.spec_num_rows(),
                1 <= m <= 65535,
                t <= n,
                forall|i: int|
                    0 <= i < out@.len() ==> {
                        let (tt, k, row) = #[trigger] out@[i];
                        &&& self.in_bounds(tt@ as int, k@ as int)
                        &&& tt@ < t
                        &&& *row == self.grid()[tt@ as int][k@ as int]
                        &&& !row_is_empty(*row)
                    },
                forall|i: int, j: int|
                    0 <= i < j < out@.len() ==> position_before(
                        #[trigger] out@[i].0@ as int,
                        out@[i].1@ as int,
                        #[trigger] out@[j].0@ as int,
                        out@[j].1@ as int,
                    ),
                forall|tt: int, k: int|
                    0 <= tt < t && 0 <= k < m && !row_is_empty(#[trigger] self.grid()[tt][k]) ==> exists|i: int|
                        0 <= i < out@.len() && (#[trigger] out@[i]).0@ == tt && out@[i].1@ == k,
            decreases n - t,
        {
            let track = &self.tracks[t];
            assert(track@ == self.grid()[t as int]);
            let mut k: usize = 0;
            while k < m
                invariant
                    self.wf(),
                    n == self.tracks@.len(),
                    m == self.spec_num_rows(),
                    1 <= m <= 65535,
                    t < n,
                    k <= m,
                    track@ == self.grid()[t as int],
                    track@.len() == m,
                    forall|i: int|
                        0 <= i < out@.len() ==> {
                            let (tt, kk, row) = #[trigger] out@[i];
                            &&& self.in_bounds(tt@ as int, kk@ as int)
                            &&& (tt@ < t || (tt@ == t && kk@ < k))
                            &&& *row == self.grid()[tt@ as int][kk@ as int]
                            &&& !row_is_empty(*row)
                        },
                    forall|i: int, j: int|
                        0 <= i < j < out@.len() ==> position_before(
                            #[trigger] out@[i].0@ as int,
                            out@[i].1@ as int,
                            #[trigger] out@[j].0@ as int,
                            out@[j].1@ as int,
                        ),
                    forall|tt: int, kk: int|
                        ((0 <= tt < t && 0 <= kk < m) || (tt == t && 0 <= kk < k)) && !row_is_empty(
                            #[trigger] self.grid()[tt][kk],
                        ) ==> exists|i: int|
                            0 <= i < out@.len() && (#[trigger] out@[i]).0@ == tt && out@[i].1@ == kk,
                decreases m - k,
            {
                let rr = track.row(RowIndex::new(k as u16));
                if !rr.is_empty() {
                    let ghost prev = out@;
                    out.push((TrackIndex::new(t as u8), RowIndex::new(k as u16), rr));
                    proof {
                        assert forall|tt: int, kk: int|
                            ((0 <= tt < t && 0 <= kk < m) || (tt == t && 0 <= kk < k + 1)) && !row_is_empty(
                                #[trigger] self.grid()[tt][kk],
                            ) implies exists|i: int|
                                0 <= i < out@.len() && (#[trigger] out@[i]).0@ == tt && out@[i].1@ == kk by {
                            if tt == t && kk == k {
                                assert(out@[prev.len() as int].0@ == tt);
                            } else {
                                let i = choose|i: int|
                                    0 <= i < prev.len() && (#[trigger] prev[i]).0@ == tt && prev[i].1@ == kk;
                                assert(out@[i] == prev[i]);
                            }
                        }
                    }
                }
                k = k + 1;
            }
            t = t + 1;
        }
        out
    }

    /// Convert row index to tick position.
    pub fn row_to_tick(&self, row: RowIndex) -> (r: PatternTick)
        ensures
            r.0 == row@ * self.spec_ticks_per_row(),
    {
        let rv = row.as_u32();
        let tpr = self.ticks_per_row.as_u32();
        assert(rv * tpr <= 65535 * 65535) by (nonlinear_arith)
            requires rv <= 65535, tpr <= 65535;
        PatternTick(rv * tpr)
    }

    /// Convert tick position to row index (truncates; the row number is cut
    /// to 16 bits).
    pub fn tick_to_row(&self, tick: PatternTick) -> (r: RowIndex)
        requires
            self.spec_ticks_per_row() > 0,
        ensures
            r@ == (tick.0 / (self.spec_ticks_per_row() as u32)) as u16,
    {
        RowIndex::new((tick.0 / self.ticks_per_row.as_u32()) as u16)
    }
}

} // verus!
