//! Note Grid — modular note-processing graphs (linear-first).
//!
//! A [`NoteGraph`] is a project-level asset that transforms a stream of
//! expanded notes. Its `NoteStream` spine is constrained **linear** (one chain,
//! no splitters or merges); `Value`/`Gate` side edges carry modulation.
//!
//! This module holds the graph's structure and every rule about it: the
//! seed salts that decorrelate shared graphs, connection validation, the
//! deterministic evaluation order, the active stream spine, and the editing
//! operations that keep those derived facts in step with the node and
//! connection lists.
use vstd::prelude::*;
use vstd::std_specs::convert::FromSpecImpl;

use crate::dag::{is_acyclic, is_kahn_order, is_topological, kahn_order};
use crate::ids::{NoteGraphId, NoteId, NoteModuleId, PatternId, TrackId};
use crate::note_processor::{Chord, ScaleQuantize, MAX_DELAY_REPEATS, MAX_NOTE_DELAY_TICKS, MAX_RATCHET_SUBDIVISIONS};
use crate::note::Note;
use crate::pitch::{Pitch, Velocity};
use crate::time::{Duration, PatternTick};
use crate::track::TrackColor;

verus! {

// ----------------------------------------------------------------------------
// Seed salts
// ----------------------------------------------------------------------------

/// `x` rotated left by `n` bits (`0 < n < 64`).
pub open spec fn rotl64(x: u64, n: u64) -> u64 {
    (x << n) | (x >> (64 - n) as u64)
}

/// `x` rotated left by `n` bits (`0 < n < 64`).
fn rotate_left64(x: u64, n: u64) -> (r: u64)
    requires
        0 < n < 64,
    ensures
        r == rotl64(x, n),
{
    (x << n) | (x >> (64 - n))
}

/// Rotation is a bijection: distinct words stay distinct.
pub proof fn lemma_rotl64_injective(x: u64, y: u64, n: u64)
    requires
        0 < n < 64,
        rotl64(x, n) == rotl64(y, n),
    ensures
        x == y,
{
    assert(((x << n) | (x >> (64 - n) as u64)) == ((y << n) | (y >> (64 - n) as u64)) ==> x == y)
        by (bit_vector)
        requires
            0 < n < 64,
    ;
}

/// Stable per-host seed salt.
///
/// The referencing host's id, folded to a `u64` and mixed into every random
/// draw a graph makes, so a single pooled graph shared by many hosts produces
/// different but reproducible variation per host.
#[derive(Debug, Clone, Copy, PartialEq, Eq, Structural)]
pub struct HostKey(pub u64);

impl HostKey {
    /// The raw salt value.
    pub fn get(self) -> (r: u64)
        ensures
            r == self.0,
    {
        self.0
    }
}

impl Default for HostKey {
    fn default() -> (r: Self)
        ensures
            r.0 == 0,
    {
        HostKey(0)
    }
}

/// The salt of a pattern host: its id rotated left by one bit.
pub open spec fn pattern_salt(id: PatternId) -> HostKey {
    HostKey(rotl64(id.0 as u64, 1))
}

/// The salt of a note host: its id rotated left by 21 bits.
pub open spec fn note_salt(id: NoteId) -> HostKey {
    HostKey(rotl64(id.0, 21))
}

/// The salt of a track host: its id rotated left by 43 bits.
pub open spec fn track_salt(id: TrackId) -> HostKey {
    HostKey(rotl64(id.0 as u64, 43))
}

impl From<PatternId> for HostKey {
    /// Pattern ids rotate by one bit, so pattern, note and track id spaces
    /// don't alias.
    fn from(id: PatternId) -> (r: Self) {
        HostKey(rotate_left64(id.0 as u64, 1))
    }
}

impl FromSpecImpl<PatternId> for HostKey {
    open spec fn obeys_from_spec() -> bool {
        true
    }

    open spec fn from_spec(id: PatternId) -> Self {
        pattern_salt(id)
    }
}

impl From<NoteId> for HostKey {
    /// Note ids rotate by 21 bits.
    fn from(id: NoteId) -> (r: Self) {
        HostKey(rotate_left64(id.0, 21))
    }
}

impl FromSpecImpl<NoteId> for HostKey {
    open spec fn obeys_from_spec() -> bool {
        true
    }

    open spec fn from_spec(id: NoteId) -> Self {
        note_salt(id)
    }
}

impl From<TrackId> for HostKey {
    /// Track ids rotate by 43 bits.
    fn from(id: TrackId) -> (r: Self) {
        HostKey(rotate_left64(id.0 as u64, 43))
    }
}

impl FromSpecImpl<TrackId> for HostKey {
    open spec fn obeys_from_spec() -> bool {
        true
    }

    open spec fn from_spec(id: TrackId) -> Self {
        track_salt(id)
    }
}

/// Distinct hosts of one kind get distinct salts.
pub proof fn lemma_host_keys_distinct(a: PatternId, b: PatternId, c: NoteId, d: NoteId, e: TrackId, f: TrackId)
    ensures
        a != b ==> pattern_salt(a) != pattern_salt(b),
        c != d ==> note_salt(c) != note_salt(d),
        e != f ==> track_salt(e) != track_salt(f),
{
    if rotl64(a.0 as u64, 1) == rotl64(b.0 as u64, 1) {
        lemma_rotl64_injective(a.0 as u64, b.0 as u64, 1);
    }
    if rotl64(c.0, 21) == rotl64(d.0, 21) {
        lemma_rotl64_injective(c.0, d.0, 21);
    }
    if rotl64(e.0 as u64, 43) == rotl64(f.0 as u64, 43) {
        lemma_rotl64_injective(e.0 as u64, f.0 as u64, 43);
    }
}

/// Runtime-only key identifying the origin of an expanded note, for seeded
/// randomness.
#[derive(Debug, Clone, Copy, PartialEq, Eq, Structural)]
pub struct NoteEventKey {
    /// The source note this event ultimately derives from.
    pub origin_note: NoteId,
    /// The tick the source note started on.
    pub origin_tick: PatternTick,
    /// Which emission of a 1→N expansion this is (chord tone, echo repeat, …).
    pub emit_ordinal: u16,
}

/// The seed contribution of an event key: the note id rotated into the high
/// half, the tick in the low bits, the ordinal rotated to bit 48.
pub open spec fn event_seed(k: NoteEventKey) -> u64 {
    rotl64(k.origin_note.0, 32) ^ (k.origin_tick.0 as u64) ^ rotl64(k.emit_ordinal as u64, 48)
}

impl NoteEventKey {
    /// Create a new event key.
    pub fn new(origin_note: NoteId, origin_tick: PatternTick, emit_ordinal: u16) -> (k: Self)
        ensures
            k.origin_note == origin_note,
            k.origin_tick == origin_tick,
            k.emit_ordinal == emit_ordinal,
    {
        NoteEventKey { origin_note, origin_tick, emit_ordinal }
    }

    /// Fold into a `u64` seed contribution. Fields occupy rotated ranges so
    /// they decorrelate before the mixing finalizer.
    pub fn seed(self) -> (r: u64)
        ensures
            r == event_seed(self),
    {
        rotate_left64(self.origin_note.0, 32) ^ (self.origin_tick.0 as u64) ^ rotate_left64(
            self.emit_ordinal as u64,
            48,
        )
    }
}

/// Changing any single field of an event key changes its seed.
pub proof fn lemma_event_seed_decorrelates(k: NoteEventKey, note: NoteId, tick: PatternTick, ordinal: u16)
    ensures
        note != k.origin_note ==> event_seed(NoteEventKey { origin_note: note, ..k }) != event_seed(k),
        tick != k.origin_tick ==> event_seed(NoteEventKey { origin_tick: tick, ..k }) != event_seed(k),
        ordinal != k.emit_ordinal ==> event_seed(NoteEventKey { emit_ordinal: ordinal, ..k })
            != event_seed(k),
{
    let a = rotl64(k.origin_note.0, 32);
    let b = k.origin_tick.0 as u64;
    let c = rotl64(k.emit_ordinal as u64, 48);
    let a2 = rotl64(note.0, 32);
    let b2 = tick.0 as u64;
    let c2 = rotl64(ordinal as u64, 48);
    assert(a2 ^ b ^ c == a ^ b ^ c ==> a2 == a) by (bit_vector);
    assert(a ^ b2 ^ c == a ^ b ^ c ==> b2 == b) by (bit_vector);
    assert(a ^ b ^ c2 == a ^ b ^ c ==> c2 == c) by (bit_vector);
    if a2 == a {
        lemma_rotl64_injective(note.0, k.origin_note.0, 32);
    }
    if c2 == c {
        lemma_rotl64_injective(ordinal as u64, k.emit_ordinal as u64, 48);
    }
}

/// The fallback per-note seed: `tick ⊕ (pitch << 32) ⊕ (slot << 40)`.
pub open spec fn fallback_seed(tick: u32, pitch: u8, slot: u64) -> u64 {
    (tick as u64) ^ ((pitch as u64) << 32u64) ^ (slot << 40u64)
}

/// Fallback per-note seed used until an event key is carried on expanded
/// notes: `tick ⊕ pitch ⊕ slot`, the fields in bit-disjoint ranges. This is a
/// raw fold, not a finished random value; consumers mix it before use.
pub fn fallback_note_seed(tick: PatternTick, pitch: Pitch, slot: usize) -> (r: u64)
    ensures
        r == fallback_seed(tick.0, pitch@, slot as u64),
{
    (tick.0 as u64) ^ ((pitch.as_midi() as u64) << 32u64) ^ ((slot as u64) << 40u64)
}

/// The fallback seed is injective over its valid inputs: ticks, MIDI pitches
/// (0-127) and slots below 2^24 fold to distinct seeds.
pub proof fn lemma_fallback_seed_injective(t1: u32, p1: u8, s1: u64, t2: u32, p2: u8, s2: u64)
    requires
        p1 <= 127,
        p2 <= 127,
        s1 < 0x100_0000,
        s2 < 0x100_0000,
        fallback_seed(t1, p1, s1) == fallback_seed(t2, p2, s2),
    ensures
        t1 == t2,
        p1 == p2,
        s1 == s2,
{
    let a1 = t1 as u64;
    let a2 = t2 as u64;
    let b1 = p1 as u64;
    let b2 = p2 as u64;
    assert(a1 ^ (b1 << 32u64) ^ (s1 << 40u64) == a2 ^ (b2 << 32u64) ^ (s2 << 40u64) ==> a1 == a2
        && b1 == b2 && s1 == s2) by (bit_vector)
        requires
            a1 < 0x1_0000_0000,
            a2 < 0x1_0000_0000,
            b1 <= 127,
            b2 <= 127,
            s1 < 0x100_0000,
            s2 < 0x100_0000,
    ;
}

// ----------------------------------------------------------------------------
// Ports, connections, errors
// ----------------------------------------------------------------------------

/// The three signal types that flow through Note Grid connections.
#[derive(Debug, Clone, Copy, PartialEq, Eq, Structural)]
pub enum NotePortType {
    /// The per-tick set of expanded notes (the spine).
    NoteStream,
    /// A continuous control scalar, recomputed per tick.
    Value,
    /// A trigger high on specific ticks.
    Gate,
}

impl NotePortType {
    /// Whether this edge carries the `NoteStream` spine (as opposed to a
    /// `Value`/`Gate` modulation side-input).
    pub fn is_stream(self) -> (b: bool)
        ensures
            b == (self == NotePortType::NoteStream),
    {
        match self {
            NotePortType::NoteStream => true,
            _ => false,
        }
    }
}

/// Max `Value`/`Gate` input ports a single node exposes.
pub const MAX_VALUE_INPUTS: usize = 4;

/// A directed connection between two nodes' ports of a given signal type.
#[derive(Debug, Clone, Copy, PartialEq, Eq, Structural)]
pub struct NoteConnection {
    /// Source node (output side).
    pub from: NoteModuleId,
    /// Destination node (input side).
    pub to: NoteModuleId,
    /// Signal type carried by this edge.
    pub port: NotePortType,
    /// For `Value`/`Gate` edges, which of the target's value input ports this
    /// feeds. Ignored for `NoteStream` edges.
    pub to_input: u8,
}

impl NoteConnection {
    /// Create a `NoteStream` connection (the spine edge).
    pub fn stream(from: NoteModuleId, to: NoteModuleId) -> (c: Self)
        ensures
            c == (NoteConnection { from, to, port: NotePortType::NoteStream, to_input: 0 }),
    {
        NoteConnection { from, to, port: NotePortType::NoteStream, to_input: 0 }
    }

    /// Create a `Value` modulation edge into the target's `to_input` port.
    pub fn value(from: NoteModuleId, to: NoteModuleId, to_input: u8) -> (c: Self)
        ensures
            c == (NoteConnection { from, to, port: NotePortType::Value, to_input }),
    {
        NoteConnection { from, to, port: NotePortType::Value, to_input }
    }

    /// Create a `Gate` modulation edge into the target's `to_input` port.
    pub fn gate(from: NoteModuleId, to: NoteModuleId, to_input: u8) -> (c: Self)
        ensures
            c == (NoteConnection { from, to, port: NotePortType::Gate, to_input }),
    {
        NoteConnection { from, to, port: NotePortType::Gate, to_input }
    }
}

/// Hard cap on nodes in one graph.
pub const MAX_NOTE_GRID_NODES: usize = 32;

/// Errors from editing / validating a [`NoteGraph`].
#[derive(Debug, Clone, Copy, PartialEq, Eq, Structural)]
pub enum NoteGraphError {
    /// Adding a node would exceed [`MAX_NOTE_GRID_NODES`].
    NodeCapExceeded,
    /// A connection references a node id not present in the graph.
    UnknownNode(NoteModuleId),
    /// A node would receive two `NoteStream` inputs (merge is not allowed).
    DuplicateStreamInput(NoteModuleId),
    /// A node would feed two `NoteStream` outputs (split is not allowed).
    DuplicateStreamOutput(NoteModuleId),
    /// A `NoteStream` edge attaches to a node lacking the required stream port.
    InvalidStreamEndpoint(NoteModuleId),
    /// A `Value`/`Gate` edge originates at a node that produces no modulation.
    NotValueSource(NoteModuleId),
    /// A `Value`/`Gate` edge targets a node/port that accepts no such input.
    InvalidValueInput(NoteModuleId, u8),
    /// The exact same connection exists twice.
    DuplicateConnection(NoteModuleId, NoteModuleId),
    /// Two `Value`/`Gate` edges feed the same input port.
    DuplicateValueInput(NoteModuleId, u8),
    /// The connection set contains a cycle (spans all edge types).
    Cycle,
}

// ----------------------------------------------------------------------------
// Native modules whose rules are integer arithmetic
// ----------------------------------------------------------------------------

/// A source-independent generator that emits a note on each Euclidean onset —
/// `pulses` hits distributed as evenly as possible over `steps`, offset by
/// `rotation`, one step every `step_len` ticks.
#[derive(Debug, Clone, Copy, PartialEq, Eq)]
pub struct EuclideanGenerator {
    /// Total steps in the cycle (0 = silent).
    pub steps: u8,
    /// Onsets distributed over the steps (clamped to `steps`).
    pub pulses: u8,
    /// Rotation of the onset pattern, in steps.
    pub rotation: u8,
    /// Ticks per step.
    pub step_len: Duration,
    /// Pitch of each emitted hit.
    pub pitch: Pitch,
    /// Velocity of each emitted hit.
    pub velocity: Velocity,
}

/// Whether `tick` is a Euclidean onset: a step boundary whose rotated step is
/// a pulse of the Bresenham distribution of `min(pulses, steps)` over `steps`.
pub open spec fn euclid_onset(steps: int, pulses: int, rotation: int, step_len: int, tick: int) -> bool {
    let p = if pulses < steps {
        pulses
    } else {
        steps
    };
    if steps == 0 || p == 0 || step_len == 0 || tick % step_len != 0 {
        false
    } else {
        let step = (tick / step_len) % steps;
        let rotated = (step + rotation) % steps;
        (rotated * p) % steps < p
    }
}

/// How rotation moves the Euclidean pattern: on a step boundary `s·step_len`,
/// the onset with rotation `r` is the unrotated onset at step
/// `(s + r) mod steps`; off step boundaries there is never an onset; and
/// unrotated, the first step of every cycle is an onset whenever there is a
/// pulse.
pub proof fn lemma_euclid_rotation(steps: int, pulses: int, r: int, step_len: int, s: int)
    requires
        steps > 0,
        step_len > 0,
        s >= 0,
        r >= 0,
    ensures
        euclid_onset(steps, pulses, r, step_len, s * step_len) == euclid_onset(
            steps,
            pulses,
            0,
            step_len,
            ((s + r) % steps) * step_len,
        ),
        s % steps == 0 && pulses > 0 ==> euclid_onset(steps, pulses, 0, step_len, s * step_len),
        forall|t: int| #[trigger] (t % step_len) != 0 ==> !euclid_onset(steps, pulses, r, step_len, t),
        pulses <= 0 ==> !euclid_onset(steps, pulses, r, step_len, s * step_len),
        pulses >= steps ==> euclid_onset(steps, pulses, r, step_len, s * step_len),
{
    let q = (s + r) % steps;
    assert((s * step_len) % step_len == 0 && (s * step_len) / step_len == s) by {
        vstd::arithmetic::div_mod::lemma_mod_multiples_basic(s, step_len);
        vstd::arithmetic::div_mod::lemma_div_multiples_vanish(s, step_len);
        vstd::arithmetic::mul::lemma_mul_is_commutative(s, step_len);
    }
    assert(0 <= q < steps) by {
        vstd::arithmetic::div_mod::lemma_mod_bound(s + r, steps);
    }
    assert((q * step_len) % step_len == 0 && (q * step_len) / step_len == q) by {
        vstd::arithmetic::div_mod::lemma_mod_multiples_basic(q, step_len);
        vstd::arithmetic::div_mod::lemma_div_multiples_vanish(q, step_len);
        vstd::arithmetic::mul::lemma_mul_is_commutative(q, step_len);
    }
    assert(q % steps == q) by {
        vstd::arithmetic::div_mod::lemma_small_mod(q as nat, steps as nat);
    }
    assert(((s % steps) + r) % steps == q) by {
        vstd::arithmetic::div_mod::lemma_add_mod_noop(s, r, steps);
        vstd::arithmetic::div_mod::lemma_add_mod_noop(s % steps, r, steps);
        vstd::arithmetic::div_mod::lemma_mod_twice(s, steps);
    }
    assert((q + 0) % steps == q);
    if pulses >= steps {
        vstd::arithmetic::div_mod::lemma_mod_multiples_basic(q, steps);
    }
    if s % steps == 0 && pulses > 0 {
        vstd::arithmetic::div_mod::lemma_small_mod(0, steps as nat);
        let p = if pulses < steps { pulses } else { steps };
        assert(0 * p == 0);
        assert((0 * p) % steps < p);
    }
}

impl EuclideanGenerator {
    /// The default generator: sixteen 16th-note steps, four pulses, middle C
    /// at mezzo-forte.
    pub fn default_generator() -> (g: Self)
        ensures
            g.steps == 16 && g.pulses == 4 && g.rotation == 0 && g.step_len.0 == 240,
            g.pitch@ == 60,
            g.velocity@ == 80,
    {
        EuclideanGenerator {
            steps: 16,
            pulses: 4,
            rotation: 0,
            step_len: Duration(240),
            pitch: Pitch::middle_c(),
            velocity: Velocity::mf(),
        }
    }

    /// Whether `tick` lands on a Euclidean onset.
    pub fn is_onset(&self, tick: PatternTick) -> (b: bool)
        ensures
            b == euclid_onset(
                self.steps as int,
                self.pulses as int,
                self.rotation as int,
                self.step_len.0 as int,
                tick.0 as int,
            ),
    {
        let steps = self.steps as u32;
        let pulses = if (self.pulses as u32) < steps {
            self.pulses as u32
        } else {
            steps
        };
        if steps == 0 || pulses == 0 || self.step_len.0 == 0 || tick.0 % self.step_len.0 != 0 {
            return false;
        }
        let step = (tick.0 / self.step_len.0) % steps;
        let rotated = (step + self.rotation as u32) % steps;
        assert(rotated * pulses < 256 * 256) by (nonlinear_arith)
            requires
                rotated < steps,
                pulses <= steps,
                steps < 256,
        ;
        (rotated * pulses) % steps < pulses
    }
}

impl Default for EuclideanGenerator {
    fn default() -> (g: Self)
        ensures
            g.steps == 16 && g.pulses == 4 && g.rotation == 0 && g.step_len.0 == 240,
            g.pitch@ == 60,
            g.velocity@ == 80,
    {
        EuclideanGenerator::default_generator()
    }
}

/// Shape of a note LFO's unipolar waveform over one cycle.
#[derive(Debug, Clone, Copy, PartialEq, Eq, Structural)]
pub enum LfoShape {
    /// Raised sine: `0.5 + 0.5·sin`.
    Sine,
    /// Rising-then-falling triangle.
    Triangle,
    /// Rising ramp (`= phase`).
    Saw,
    /// High for the first half of the cycle, low for the second.
    Square,
}

impl Default for LfoShape {
    fn default() -> (r: Self)
        ensures
            r == LfoShape::Sine,
    {
        LfoShape::Sine
    }
}

/// What retriggers a note envelope.
#[derive(Debug, Clone, Copy, PartialEq, Eq, Structural)]
pub enum EnvelopeTrigger {
    /// Raw source-note onsets.
    SourceOnset,
    /// Onsets in the transformed terminal stream.
    StreamOnset,
}

impl Default for EnvelopeTrigger {
    fn default() -> (r: Self)
        ensures
            r == EnvelopeTrigger::SourceOnset,
    {
        EnvelopeTrigger::SourceOnset
    }
}

/// Whether a note's onset lies in the `window` ticks up to and including
/// `tick`.
pub open spec fn onset_in_window(n: Note, tick: int, window: int) -> bool {
    n.start.0 <= tick && tick - n.start.0 <= window
}

/// The latest source onset at or before `tick` and at most `window` ticks
/// back: the onset a source-triggered envelope restarts from. None when no
/// note starts in that span.
pub fn latest_onset(notes: &[Note], tick: PatternTick, window: u32) -> (r: Option<u32>)
    ensures
        r is None <==> forall|i: int|
            0 <= i < notes@.len() ==> !onset_in_window(#[trigger] notes@[i], tick.0 as int, window as int),
        r matches Some(o) ==> (exists|i: int|
            0 <= i < notes@.len() && onset_in_window(#[trigger] notes@[i], tick.0 as int, window as int)
                && notes@[i].start.0 == o),
        r matches Some(o) ==> (forall|i: int|
            0 <= i < notes@.len() && onset_in_window(#[trigger] notes@[i], tick.0 as int, window as int)
                ==> notes@[i].start.0 <= o),
{
    let mut best: Option<u32> = None;
    let mut i: usize = 0;
    while i < notes.len()
        invariant
            i <= notes@.len(),
            best is None <==> forall|j: int|
                0 <= j < i ==> !onset_in_window(#[trigger] notes@[j], tick.0 as int, window as int),
            best matches Some(o) ==> (exists|j: int|
                0 <= j < i && onset_in_window(#[trigger] notes@[j], tick.0 as int, window as int)
                    && notes@[j].start.0 == o),
            best matches Some(o) ==> (forall|j: int|
                0 <= j < i && onset_in_window(#[trigger] notes@[j], tick.0 as int, window as int)
                    ==> notes@[j].start.0 <= o),
        decreases notes@.len() - i,
    {
        let onset = notes[i].start.0;
        if onset <= tick.0 && tick.0 - onset <= window {
            best = match best {
                Some(b) => if b >= onset { Some(b) } else { Some(onset) },
                None => Some(onset),
            };
            assert(onset_in_window(notes@[i as int], tick.0 as int, window as int));
        }
        i = i + 1;
    }
    best
}

/// The step of a step LFO sounding at `tick`: `tick / step_len` (frozen on
/// the first step when the step length is 0), cycling over `len` steps.
pub fn step_lfo_index(tick: PatternTick, step_len: Duration, len: usize) -> (r: usize)
    requires
        len > 0,
    ensures
        r == (if step_len.0 == 0 { 0 } else { tick.0 / step_len.0 }) as int % (len as int),
{
    let step: u32 = if step_len.0 == 0 { 0 } else { tick.0 / step_len.0 };
    step as usize % len
}

/// The furthest look-back offset a timing node probes: the largest `k·step`
/// with `k ≤ count` and `k·step ≤ MAX_NOTE_DELAY_TICKS` (`0` when `step` is
/// `0` or beyond the cap).
pub open spec fn reach(count: int, step: int) -> int {
    if step == 0 || step > MAX_NOTE_DELAY_TICKS {
        0
    } else {
        let cap = (MAX_NOTE_DELAY_TICKS as int) / step;
        let k = if count < cap {
            count
        } else {
            cap
        };
        k * step
    }
}

/// The look-back reach is the furthest whole number of steps back, at most
/// `count` of them and within the look-back window: a multiple of `step`, no
/// more than `count` steps and no more than the window, and either all
/// `count` steps or so far that one more step would leave the window. A
/// spacing of 0 or beyond the window reaches nothing.
pub proof fn lemma_reach_is_furthest_step(count: int, step: int)
    requires
        count >= 0,
        step >= 0,
    ensures
        step == 0 || step > MAX_NOTE_DELAY_TICKS ==> reach(count, step) == 0,
        0 < step <= MAX_NOTE_DELAY_TICKS ==> {
            let r = reach(count, step);
            &&& r % step == 0
            &&& 0 <= r <= count * step
            &&& r <= MAX_NOTE_DELAY_TICKS
            &&& (r == count * step || r + step > MAX_NOTE_DELAY_TICKS)
        },
{
    if 0 < step <= MAX_NOTE_DELAY_TICKS {
        let cap = (MAX_NOTE_DELAY_TICKS as int) / step;
        let k = if count < cap { count } else { cap };
        let r = k * step;
        assert(0 <= cap) by {
            vstd::arithmetic::div_mod::lemma_div_pos_is_pos(MAX_NOTE_DELAY_TICKS as int, step);
        }
        assert(cap * step <= MAX_NOTE_DELAY_TICKS && MAX_NOTE_DELAY_TICKS < (cap + 1) * step) by {
            vstd::arithmetic::div_mod::lemma_fundamental_div_mod(MAX_NOTE_DELAY_TICKS as int, step);
            vstd::arithmetic::div_mod::lemma_mod_bound(MAX_NOTE_DELAY_TICKS as int, step);
            vstd::arithmetic::mul::lemma_mul_is_distributive_add_other_way(step, cap, 1);
        }
        assert(r % step == 0) by {
            vstd::arithmetic::div_mod::lemma_mod_multiples_basic(k, step);
        }
        assert(0 <= r <= count * step && r <= cap * step) by {
            vstd::arithmetic::mul::lemma_mul_inequality(k, count, step);
            vstd::arithmetic::mul::lemma_mul_inequality(k, cap, step);
            vstd::arithmetic::mul::lemma_mul_nonnegative(k, step);
        }
        if k == cap {
            assert(r + step == (cap + 1) * step) by {
                vstd::arithmetic::mul::lemma_mul_is_distributive_add_other_way(step, cap, 1);
            }
        }
    }
}

/// The furthest look-back offset a timing node actually probes.
pub fn lookback_reach(count: u32, step: u32) -> (r: u32)
    ensures
        r == reach(count as int, step as int),
        r <= MAX_NOTE_DELAY_TICKS,
{
    if step == 0 || step > MAX_NOTE_DELAY_TICKS {
        return 0;
    }
    let cap = MAX_NOTE_DELAY_TICKS / step;
    let k = if count < cap {
        count
    } else {
        cap
    };
    assert(k * step <= MAX_NOTE_DELAY_TICKS) by (nonlinear_arith)
        requires
            k <= MAX_NOTE_DELAY_TICKS / step,
            step > 0,
    ;
    k * step
}

/// The timing of a decaying echo: echoes `delay_ticks` apart, `repeats` of
/// them after the dry note (the per-echo gain belongs to the node's
/// configuration).
#[derive(Debug, Clone, Copy, PartialEq, Eq, Structural)]
pub struct NoteDelay {
    /// Ticks between successive echoes.
    pub delay_ticks: Duration,
    /// Echoes after the dry note (clamped to [`MAX_DELAY_REPEATS`]).
    pub repeats: u8,
}

impl NoteDelay {
    /// Live echo count — clamped.
    pub fn live_repeats(&self) -> (r: u8)
        ensures
            r == if self.repeats < MAX_DELAY_REPEATS {
                self.repeats
            } else {
                MAX_DELAY_REPEATS
            },
    {
        if self.repeats < MAX_DELAY_REPEATS {
            self.repeats
        } else {
            MAX_DELAY_REPEATS
        }
    }

    /// Furthest past an onset this node actually reaches.
    pub fn delay_tail(&self) -> (r: u32)
        ensures
            r == reach(
                if self.repeats < MAX_DELAY_REPEATS {
                    self.repeats as int
                } else {
                    MAX_DELAY_REPEATS as int
                },
                self.delay_ticks.0 as int,
            ),
    {
        lookback_reach(self.live_repeats() as u32, self.delay_ticks.0)
    }
}

impl Default for NoteDelay {
    fn default() -> (r: Self)
        ensures
            r.delay_ticks.0 == 480,
            r.repeats == 3,
    {
        NoteDelay { delay_ticks: Duration(480), repeats: 3 }
    }
}

/// The timing of a ratchet / roll: `count` retriggers (including the first)
/// spaced `sub_ticks` apart (the per-retrigger gain belongs to the node's
/// configuration).
#[derive(Debug, Clone, Copy, PartialEq, Eq, Structural)]
pub struct Ratchet {
    /// Ticks between retriggers.
    pub sub_ticks: Duration,
    /// Retriggers per note, including the first (clamped to
    /// [`MAX_RATCHET_SUBDIVISIONS`]).
    pub count: u8,
}

impl Ratchet {
    /// Live retrigger count — clamped.
    pub fn live_count(&self) -> (r: u8)
        ensures
            r == if self.count < MAX_RATCHET_SUBDIVISIONS {
                self.count
            } else {
                MAX_RATCHET_SUBDIVISIONS
            },
    {
        if self.count < MAX_RATCHET_SUBDIVISIONS {
            self.count
        } else {
            MAX_RATCHET_SUBDIVISIONS
        }
    }

    /// Furthest past an onset a retrigger can actually land.
    pub fn ratchet_tail(&self) -> (r: u32)
        ensures
            ({
                let live = if self.count < MAX_RATCHET_SUBDIVISIONS {
                    self.count as int
                } else {
                    MAX_RATCHET_SUBDIVISIONS as int
                };
                r == reach(if live > 0 { live - 1 } else { 0 }, self.sub_ticks.0 as int)
            }),
    {
        let live = self.live_count();
        let before = if live > 0 {
            live - 1
        } else {
            0
        };
        lookback_reach(before as u32, self.sub_ticks.0)
    }
}

impl Default for Ratchet {
    fn default() -> (r: Self)
        ensures
            r.sub_ticks.0 == 120,
            r.count == 4,
    {
        Ratchet { sub_ticks: Duration(120), count: 4 }
    }
}

// ----------------------------------------------------------------------------
// Node kinds
// ----------------------------------------------------------------------------

/// What kind of module a node is, with the parameters the graph's rules read
/// (pitch transforms, strum spread, generator pattern, timing reach).
#[derive(Debug, Clone, Copy, PartialEq, Eq)]
pub enum NoteModuleKind {
    /// Snap pitches to a scale.
    ScaleQuantize(ScaleQuantize),
    /// Expand each source note into a chord (strummed when its strum > 0).
    Chord(Chord),
    /// Arpeggiate the held chord.
    Arpeggiator,
    /// Seeded random perturbation of the stream.
    Humanize,
    /// A Euclidean rhythm generator (source-independent).
    Euclidean(EuclideanGenerator),
    /// A seeded pass/block probability filter.
    ProbabilityGate,
    /// A tempo-synced control LFO (`Value` source).
    NoteLfo,
    /// A step-sequenced control LFO (`Value` source).
    StepLfo,
    /// An attack/decay envelope retriggered by onsets (`Value` source).
    NoteEnvelope,
    /// A per-event note script (1-in/1-out stream transform).
    NoteScriptTransform,
    /// A decaying echo (timing node).
    NoteDelay(NoteDelay),
    /// A ratchet / roll (timing node).
    Ratchet(Ratchet),
}

/// Whether this kind consumes an upstream `NoteStream`.
pub open spec fn kind_stream_input(k: NoteModuleKind) -> bool {
    match k {
        NoteModuleKind::Euclidean(_) | NoteModuleKind::NoteLfo | NoteModuleKind::StepLfo
        | NoteModuleKind::NoteEnvelope => false,
        _ => true,
    }
}

/// Whether this kind emits a `NoteStream`.
pub open spec fn kind_stream_output(k: NoteModuleKind) -> bool {
    match k {
        NoteModuleKind::NoteLfo | NoteModuleKind::StepLfo | NoteModuleKind::NoteEnvelope => false,
        _ => true,
    }
}

/// Whether this kind produces a `Value`/`Gate` scalar.
pub open spec fn kind_value_source(k: NoteModuleKind) -> bool {
    match k {
        NoteModuleKind::NoteLfo | NoteModuleKind::StepLfo | NoteModuleKind::NoteEnvelope => true,
        _ => false,
    }
}

/// How many `Value` input ports this kind exposes.
pub open spec fn kind_value_inputs(k: NoteModuleKind) -> u8 {
    match k {
        NoteModuleKind::ProbabilityGate => 1,
        NoteModuleKind::NoteScriptTransform => MAX_VALUE_INPUTS as u8,
        _ => 0,
    }
}

impl NoteModuleKind {
    /// Stable snake_case tag.
    pub fn kind(&self) -> (s: &'static str)
        ensures
            s@ == match *self {
                NoteModuleKind::ScaleQuantize(_) => "scale_quantize"@,
                NoteModuleKind::Chord(_) => "chord"@,
                NoteModuleKind::Arpeggiator => "arpeggiator"@,
                NoteModuleKind::Humanize => "humanize"@,
                NoteModuleKind::Euclidean(_) => "euclidean"@,
                NoteModuleKind::ProbabilityGate => "probability_gate"@,
                NoteModuleKind::NoteLfo => "note_lfo"@,
                NoteModuleKind::StepLfo => "step_lfo"@,
                NoteModuleKind::NoteEnvelope => "note_envelope"@,
                NoteModuleKind::NoteScriptTransform => "note_script_transform"@,
                NoteModuleKind::NoteDelay(_) => "note_delay"@,
                NoteModuleKind::Ratchet(_) => "ratchet"@,
            },
    {
        match self {
            NoteModuleKind::ScaleQuantize(_) => "scale_quantize",
            NoteModuleKind::Chord(_) => "chord",
            NoteModuleKind::Arpeggiator => "arpeggiator",
            NoteModuleKind::Humanize => "humanize",
            NoteModuleKind::Euclidean(_) => "euclidean",
            NoteModuleKind::ProbabilityGate => "probability_gate",
            NoteModuleKind::NoteLfo => "note_lfo",
            NoteModuleKind::StepLfo => "step_lfo",
            NoteModuleKind::NoteEnvelope => "note_envelope",
            NoteModuleKind::NoteScriptTransform => "note_script_transform",
            NoteModuleKind::NoteDelay(_) => "note_delay",
            NoteModuleKind::Ratchet(_) => "ratchet",
        }
    }

    /// Whether this node consumes an upstream `NoteStream`. Pure generators
    /// (Euclidean) and `Value` sources (LFOs, envelope) do not.
    pub fn has_stream_input(&self) -> (b: bool)
        ensures
            b == kind_stream_input(*self),
    {
        match self {
            NoteModuleKind::Euclidean(_) | NoteModuleKind::NoteLfo | NoteModuleKind::StepLfo
            | NoteModuleKind::NoteEnvelope => false,
            _ => true,
        }
    }

    /// Whether this node emits a `NoteStream`. `Value` sources do not.
    pub fn has_stream_output(&self) -> (b: bool)
        ensures
            b == kind_stream_output(*self),
    {
        match self {
            NoteModuleKind::NoteLfo | NoteModuleKind::StepLfo | NoteModuleKind::NoteEnvelope => false,
            _ => true,
        }
    }

    /// Whether this node produces a `Value`/`Gate` scalar (a modulation
    /// source) rather than operating on the `NoteStream`.
    pub fn is_value_source(&self) -> (b: bool)
        ensures
            b == kind_value_source(*self),
    {
        match self {
            NoteModuleKind::NoteLfo | NoteModuleKind::StepLfo | NoteModuleKind::NoteEnvelope => true,
            _ => false,
        }
    }

    /// How many `Value` input ports this node exposes (0 if it takes no
    /// modulation).
    pub fn value_input_count(&self) -> (n: u8)
        ensures
            n == kind_value_inputs(*self),
    {
        match self {
            NoteModuleKind::ProbabilityGate => 1,
            NoteModuleKind::NoteScriptTransform => 4,
            _ => 0,
        }
    }
}


// ----------------------------------------------------------------------------
// The node list (ordered by id, addressed as a map)
// ----------------------------------------------------------------------------

/// One node of a note graph: its id, its kind and its configuration.
#[derive(Debug, Clone, PartialEq)]
pub struct NoteNode<C> {
    pub id: NoteModuleId,
    pub kind: NoteModuleKind,
    pub config: C,
}

/// The node ids, in list order.
pub open spec fn note_node_ids<C>(nodes: Seq<NoteNode<C>>) -> Seq<u32> {
    nodes.map_values(|n: NoteNode<C>| n.id.0)
}

/// Two node lists with the same ids and kinds, position by position.
pub open spec fn same_note_shape<C>(a: Seq<NoteNode<C>>, b: Seq<NoteNode<C>>) -> bool {
    &&& a.len() == b.len()
    &&& forall|i: int| 0 <= i < a.len() ==> (#[trigger] a[i]).id == b[i].id && a[i].kind == b[i].kind
}

/// The node list is ordered by strictly ascending id.
pub open spec fn note_nodes_sorted<C>(nodes: Seq<NoteNode<C>>) -> bool {
    forall|i: int, j: int| 0 <= i < j < nodes.len() ==> nodes[i].id.0 < nodes[j].id.0
}

/// Some node has this id.
pub open spec fn has_note_node<C>(nodes: Seq<NoteNode<C>>, id: NoteModuleId) -> bool {
    exists|i: int| 0 <= i < nodes.len() && nodes[i].id == id
}

/// Position of the node with this id (meaningful when there is one).
pub open spec fn note_node_index<C>(nodes: Seq<NoteNode<C>>, id: NoteModuleId) -> int {
    choose|i: int| 0 <= i < nodes.len() && nodes[i].id == id
}

/// The nodes as a map from id to node, the way the graph is addressed.
pub open spec fn note_node_map<C>(nodes: Seq<NoteNode<C>>) -> Map<NoteModuleId, NoteNode<C>> {
    Map::new(
        |id: NoteModuleId| has_note_node(nodes, id),
        |id: NoteModuleId| nodes[note_node_index(nodes, id)],
    )
}

/// Where a node with a new id goes in an id-ordered list: after every node
/// with a smaller id.
pub open spec fn note_insert_pos<C>(nodes: Seq<NoteNode<C>>, id: u32) -> int
    decreases nodes.len(),
{
    if nodes.len() == 0 {
        0
    } else if nodes.last().id.0 < id {
        nodes.len() as int
    } else {
        note_insert_pos(nodes.drop_last(), id)
    }
}

/// The id-ordered node list with `node` inserted, replacing the node with
/// the same id if there is one.
pub open spec fn with_note_node<C>(nodes: Seq<NoteNode<C>>, node: NoteNode<C>) -> Seq<NoteNode<C>> {
    if has_note_node(nodes, node.id) {
        nodes.update(note_node_index(nodes, node.id), node)
    } else {
        nodes.insert(note_insert_pos(nodes, node.id.0), node)
    }
}

/// The id-ordered node list without the node with this id.
pub open spec fn without_note_node<C>(nodes: Seq<NoteNode<C>>, id: NoteModuleId) -> Seq<NoteNode<C>> {
    if has_note_node(nodes, id) {
        nodes.remove(note_node_index(nodes, id))
    } else {
        nodes
    }
}

proof fn lemma_note_index_unique<C>(nodes: Seq<NoteNode<C>>, i: int)
    requires
        note_nodes_sorted(nodes),
        0 <= i < nodes.len(),
    ensures
        note_node_index(nodes, nodes[i].id) == i,
        has_note_node(nodes, nodes[i].id),
{
    let j = note_node_index(nodes, nodes[i].id);
    assert(0 <= j < nodes.len() && nodes[j].id == nodes[i].id);
    if j < i {
        assert(nodes[j].id.0 < nodes[i].id.0);
    } else if j > i {
        assert(nodes[i].id.0 < nodes[j].id.0);
    }
}

proof fn lemma_note_insert_pos<C>(nodes: Seq<NoteNode<C>>, id: u32, p: int)
    requires
        note_nodes_sorted(nodes),
        0 <= p <= nodes.len(),
        forall|k: int| 0 <= k < p ==> nodes[k].id.0 < id,
        forall|k: int| p <= k < nodes.len() ==> nodes[k].id.0 > id,
    ensures
        note_insert_pos(nodes, id) == p,
    decreases nodes.len(),
{
    if nodes.len() > 0 && p < nodes.len() {
        lemma_note_insert_pos(nodes.drop_last(), id, p);
    }
}

/// Inserting a node into an id-ordered list keeps it ordered, and as a map
/// it is the map updated at that id; removing one is the map without it.
pub proof fn lemma_note_node_map_edits<C>(nodes: Seq<NoteNode<C>>, node: NoteNode<C>, id: NoteModuleId)
    requires
        note_nodes_sorted(nodes),
    ensures
        note_nodes_sorted(with_note_node(nodes, node)),
        note_node_map(with_note_node(nodes, node)) == note_node_map(nodes).insert(node.id, node),
        note_nodes_sorted(without_note_node(nodes, id)),
        note_node_map(without_note_node(nodes, id)) == note_node_map(nodes).remove(id),
{
    lemma_with_note_node(nodes, node);
    lemma_without_note_node(nodes, id);
}

proof fn lemma_with_note_node<C>(nodes: Seq<NoteNode<C>>, node: NoteNode<C>)
    requires
        note_nodes_sorted(nodes),
    ensures
        note_nodes_sorted(with_note_node(nodes, node)),
        note_node_map(with_note_node(nodes, node)) == note_node_map(nodes).insert(node.id, node),
        has_note_node(nodes, node.id) ==> with_note_node(nodes, node).len() == nodes.len(),
        !has_note_node(nodes, node.id) ==> with_note_node(nodes, node).len() == nodes.len() + 1,
{
    let r = with_note_node(nodes, node);
    if has_note_node(nodes, node.id) {
        let i = note_node_index(nodes, node.id);
        assert forall|a: int, b: int| 0 <= a < b < r.len() implies r[a].id.0 < r[b].id.0 by {
            assert(r[a].id == nodes[a].id);
            assert(r[b].id == nodes[b].id);
        }
        assert forall|k: int| 0 <= k < r.len() implies note_node_index(r, #[trigger] r[k].id) == k by {
            lemma_note_index_unique(r, k);
        }
        assert forall|k: int| 0 <= k < nodes.len() implies note_node_index(nodes, #[trigger] nodes[k].id) == k by {
            lemma_note_index_unique(nodes, k);
        }
        assert(note_node_map(r) =~= note_node_map(nodes).insert(node.id, node)) by {
            assert forall|x: NoteModuleId| #[trigger] has_note_node(r, x) <==> has_note_node(nodes, x) || x == node.id by {
                if has_note_node(r, x) {
                    let k = choose|k: int| 0 <= k < r.len() && r[k].id == x;
                    if k != i {
                        assert(nodes[k].id == x);
                    }
                }
                if has_note_node(nodes, x) {
                    let k = choose|k: int| 0 <= k < nodes.len() && nodes[k].id == x;
                    assert(r[k].id == x);
                }
                if x == node.id {
                    assert(r[i].id == x);
                }
            }
            assert forall|x: NoteModuleId| has_note_node(r, x) implies #[trigger] r[note_node_index(r, x)]
                == note_node_map(nodes).insert(node.id, node)[x] by {
                let k = note_node_index(r, x);
                if k != i {
                    assert(nodes[k].id == x);
                    assert(note_node_index(nodes, nodes[k].id) == k);
                }
            }
        }
    } else {
        let p = note_insert_pos(nodes, node.id.0);
        lemma_note_insert_pos_props(nodes, node.id.0);
        assert forall|a: int, b: int| 0 <= a < b < r.len() implies r[a].id.0 < r[b].id.0 by {
            if a < p && b < p {
            } else if a < p && b == p {
            } else if a < p {
                assert(r[b] == nodes[b - 1]);
            } else if a == p {
                assert(r[b] == nodes[b - 1]);
                if nodes[b - 1].id == node.id {
                    assert(has_note_node(nodes, node.id));
                }
            } else {
                assert(r[a] == nodes[a - 1]);
                assert(r[b] == nodes[b - 1]);
            }
        }
        assert forall|k: int| 0 <= k < r.len() implies note_node_index(r, #[trigger] r[k].id) == k by {
            lemma_note_index_unique(r, k);
        }
        assert forall|k: int| 0 <= k < nodes.len() implies note_node_index(nodes, #[trigger] nodes[k].id) == k by {
            lemma_note_index_unique(nodes, k);
        }
        assert(note_node_map(r) =~= note_node_map(nodes).insert(node.id, node)) by {
            assert forall|x: NoteModuleId| #[trigger] has_note_node(r, x) <==> has_note_node(nodes, x) || x == node.id by {
                if has_note_node(r, x) {
                    let k = choose|k: int| 0 <= k < r.len() && r[k].id == x;
                    if k < p {
                        assert(nodes[k].id == x);
                    } else if k > p {
                        assert(nodes[k - 1].id == x);
                    }
                }
                if has_note_node(nodes, x) {
                    let k = choose|k: int| 0 <= k < nodes.len() && nodes[k].id == x;
                    if k < p {
                        assert(r[k].id == x);
                    } else {
                        assert(r[k + 1].id == x);
                    }
                }
                if x == node.id {
                    assert(r[p].id == x);
                }
            }
            assert forall|x: NoteModuleId| has_note_node(r, x) implies #[trigger] r[note_node_index(r, x)]
                == note_node_map(nodes).insert(node.id, node)[x] by {
                let k = note_node_index(r, x);
                if k < p {
                    assert(nodes[k].id == x);
                    assert(note_node_index(nodes, nodes[k].id) == k);
                } else if k > p {
                    assert(nodes[k - 1].id == x);
                    assert(note_node_index(nodes, nodes[k - 1].id) == k - 1);
                }
            }
        }
    }
}

proof fn lemma_note_insert_pos_props<C>(nodes: Seq<NoteNode<C>>, id: u32)
    requires
        note_nodes_sorted(nodes),
    ensures
        0 <= note_insert_pos(nodes, id) <= nodes.len(),
        forall|k: int| 0 <= k < note_insert_pos(nodes, id) ==> nodes[k].id.0 < id,
        forall|k: int| note_insert_pos(nodes, id) <= k < nodes.len() ==> nodes[k].id.0 >= id,
    decreases nodes.len(),
{
    if nodes.len() > 0 {
        let d = nodes.drop_last();
        assert(note_nodes_sorted(d));
        lemma_note_insert_pos_props(d, id);
        if nodes.last().id.0 < id {
            assert forall|k: int| 0 <= k < nodes.len() implies nodes[k].id.0 < id by {
                if k < nodes.len() - 1 {
                    assert(nodes[k].id.0 < nodes[nodes.len() - 1].id.0);
                }
            }
        } else {
            assert forall|k: int| 0 <= k < note_insert_pos(nodes, id) implies nodes[k].id.0 < id by {
                assert(nodes[k] == d[k]);
            }
            assert forall|k: int| note_insert_pos(nodes, id) <= k < nodes.len() implies nodes[k].id.0
                >= id by {
                if k < nodes.len() - 1 {
                    assert(nodes[k] == d[k]);
                }
            }
        }
    }
}

proof fn lemma_without_note_node<C>(nodes: Seq<NoteNode<C>>, id: NoteModuleId)
    requires
        note_nodes_sorted(nodes),
    ensures
        note_nodes_sorted(without_note_node(nodes, id)),
        note_node_map(without_note_node(nodes, id)) == note_node_map(nodes).remove(id),
{
    let r = without_note_node(nodes, id);
    assert forall|k: int| 0 <= k < nodes.len() implies note_node_index(nodes, #[trigger] nodes[k].id) == k by {
        lemma_note_index_unique(nodes, k);
    }
    if has_note_node(nodes, id) {
        let i = note_node_index(nodes, id);
        assert forall|a: int, b: int| 0 <= a < b < r.len() implies r[a].id.0 < r[b].id.0 by {
            if a < i && b < i {
            } else if a < i {
                assert(r[b] == nodes[b + 1]);
            } else {
                assert(r[a] == nodes[a + 1]);
                assert(r[b] == nodes[b + 1]);
            }
        }
        assert forall|k: int| 0 <= k < r.len() implies note_node_index(r, #[trigger] r[k].id) == k by {
            lemma_note_index_unique(r, k);
        }
        assert(note_node_map(r) =~= note_node_map(nodes).remove(id)) by {
            assert forall|x: NoteModuleId| #[trigger] has_note_node(r, x) <==> has_note_node(nodes, x) && x != id by {
                if has_note_node(r, x) {
                    let k = choose|k: int| 0 <= k < r.len() && r[k].id == x;
                    if k < i {
                        assert(nodes[k].id == x);
                    } else {
                        assert(nodes[k + 1].id == x);
                    }
                }
                if has_note_node(nodes, x) && x != id {
                    let k = choose|k: int| 0 <= k < nodes.len() && nodes[k].id == x;
                    if k < i {
                        assert(r[k].id == x);
                    } else {
                        assert(k != i);
                        assert(r[k - 1].id == x);
                    }
                }
            }
            assert forall|x: NoteModuleId| has_note_node(r, x) implies #[trigger] r[note_node_index(r, x)]
                == note_node_map(nodes).remove(id)[x] by {
                let k = note_node_index(r, x);
                if k < i {
                    assert(note_node_index(nodes, nodes[k].id) == k);
                } else {
                    assert(note_node_index(nodes, nodes[k + 1].id) == k + 1);
                }
            }
        }
    } else {
        assert(note_node_map(r) =~= note_node_map(nodes).remove(id));
    }
}

proof fn lemma_has_note_node_ids<C>(nodes: Seq<NoteNode<C>>, id: NoteModuleId)
    ensures
        has_note_node(nodes, id) <==> note_node_ids(nodes).contains(id.0),
{
    if has_note_node(nodes, id) {
        let i = choose|i: int| 0 <= i < nodes.len() && nodes[i].id == id;
        assert(note_node_ids(nodes)[i] == id.0);
    }
    if note_node_ids(nodes).contains(id.0) {
        let i = choose|i: int| 0 <= i < nodes.len() && note_node_ids(nodes)[i] == id.0;
        assert(nodes[i].id == id);
    }
}


// ----------------------------------------------------------------------------
// Validation of the connection set
// ----------------------------------------------------------------------------

/// The connections as (source, target) id pairs.
pub open spec fn conn_edges(conns: Seq<NoteConnection>) -> Seq<(u32, u32)> {
    conns.map_values(|c: NoteConnection| (c.from.0, c.to.0))
}

/// The kind of the node with this id (meaningful when there is one).
pub open spec fn kind_of<C>(nodes: Seq<NoteNode<C>>, id: NoteModuleId) -> NoteModuleKind {
    nodes[note_node_index(nodes, id)].kind
}

/// What is wrong with connection `i`, given that every earlier connection
/// passed. Checked in this order: an exact duplicate of an earlier edge;
/// unknown endpoints; for a stream edge, missing stream ports, then a second
/// stream output of the source, then a second stream input of the target;
/// for a `Value`/`Gate` edge, a source that produces no modulation, then an
/// input port the target lacks, then an input port already fed.
pub open spec fn conn_error<C>(nodes: Seq<NoteNode<C>>, conns: Seq<NoteConnection>, i: int) -> Option<
    NoteGraphError,
> {
    let c = conns[i];
    if exists|j: int| 0 <= j < i && conns[j] == c {
        Some(NoteGraphError::DuplicateConnection(c.from, c.to))
    } else if !has_note_node(nodes, c.from) {
        Some(NoteGraphError::UnknownNode(c.from))
    } else if !has_note_node(nodes, c.to) {
        Some(NoteGraphError::UnknownNode(c.to))
    } else if c.port == NotePortType::NoteStream {
        if !kind_stream_output(kind_of(nodes, c.from)) {
            Some(NoteGraphError::InvalidStreamEndpoint(c.from))
        } else if !kind_stream_input(kind_of(nodes, c.to)) {
            Some(NoteGraphError::InvalidStreamEndpoint(c.to))
        } else if exists|j: int|
            0 <= j < i && conns[j].port == NotePortType::NoteStream && conns[j].from == c.from {
            Some(NoteGraphError::DuplicateStreamOutput(c.from))
        } else if exists|j: int|
            0 <= j < i && conns[j].port == NotePortType::NoteStream && conns[j].to == c.to {
            Some(NoteGraphError::DuplicateStreamInput(c.to))
        } else {
            None
        }
    } else {
        if !kind_value_source(kind_of(nodes, c.from)) {
            Some(NoteGraphError::NotValueSource(c.from))
        } else if c.to_input >= kind_value_inputs(kind_of(nodes, c.to)) {
            Some(NoteGraphError::InvalidValueInput(c.to, c.to_input))
        } else if exists|j: int|
            0 <= j < i && conns[j].port != NotePortType::NoteStream && conns[j].to == c.to
                && conns[j].to_input == c.to_input {
            Some(NoteGraphError::DuplicateValueInput(c.to, c.to_input))
        } else {
            None
        }
    }
}

/// The first connection error at position `i` or later.
pub open spec fn first_conn_error<C>(
    nodes: Seq<NoteNode<C>>,
    conns: Seq<NoteConnection>,
    i: int,
) -> Option<NoteGraphError>
    decreases conns.len() - i,
{
    if i < 0 || i >= conns.len() {
        None
    } else {
        match conn_error(nodes, conns, i) {
            Some(e) => Some(e),
            None => first_conn_error(nodes, conns, i + 1),
        }
    }
}

/// The outcome of validating a graph: the first connection error, else a
/// cycle through any kind of edge, else success.
pub open spec fn note_validation<C>(nodes: Seq<NoteNode<C>>, conns: Seq<NoteConnection>) -> Result<
    (),
    NoteGraphError,
> {
    match first_conn_error(nodes, conns, 0) {
        Some(e) => Err(e),
        None => if is_acyclic(note_node_ids(nodes), conn_edges(conns)) {
            Ok(())
        } else {
            Err(NoteGraphError::Cycle)
        },
    }
}

proof fn lemma_first_conn_error_none<C>(nodes: Seq<NoteNode<C>>, conns: Seq<NoteConnection>, i: int)
    requires
        0 <= i,
    ensures
        first_conn_error(nodes, conns, i) is None <==> forall|k: int|
            i <= k < conns.len() ==> #[trigger] conn_error(nodes, conns, k) is None,
    decreases conns.len() - i,
{
    if i < conns.len() {
        lemma_first_conn_error_none(nodes, conns, i + 1);
    }
}

/// The kind of the node with this id, if there is one.
fn find_note_kind<C>(nodes: &Vec<NoteNode<C>>, id: NoteModuleId) -> (r: Option<NoteModuleKind>)
    requires
        note_nodes_sorted(nodes@),
    ensures
        r is None <==> !has_note_node(nodes@, id),
        r matches Some(k) ==> k == kind_of(nodes@, id),
{
    let mut i: usize = 0;
    while i < nodes.len()
        invariant
            i <= nodes.len(),
            note_nodes_sorted(nodes@),
            forall|k: int| 0 <= k < i ==> nodes@[k].id != id,
        decreases nodes.len() - i,
    {
        if nodes[i].id == id {
            proof {
                lemma_note_index_unique(nodes@, i as int);
            }
            return Some(nodes[i].kind);
        }
        i += 1;
    }
    None
}

/// The error of connection `i` (see [`conn_error`]).
#[verifier::loop_isolation(false)]
fn conn_error_at<C>(nodes: &Vec<NoteNode<C>>, conns: &Vec<NoteConnection>, i: usize) -> (r: Option<
    NoteGraphError,
>)
    requires
        note_nodes_sorted(nodes@),
        i < conns.len(),
    ensures
        r == conn_error(nodes@, conns@, i as int),
{
    let c = conns[i];
    let mut j: usize = 0;
    while j < i
        invariant
            i < conns.len(),
            j <= i,
            c == conns@[i as int],
            forall|k: int| 0 <= k < j ==> conns@[k] != c,
        decreases i - j,
    {
        if conns[j] == c {
            return Some(NoteGraphError::DuplicateConnection(c.from, c.to));
        }
        j += 1;
    }
    let from_kind = match find_note_kind(nodes, c.from) {
        None => {
            return Some(NoteGraphError::UnknownNode(c.from));
        },
        Some(k) => k,
    };
    let to_kind = match find_note_kind(nodes, c.to) {
        None => {
            return Some(NoteGraphError::UnknownNode(c.to));
        },
        Some(k) => k,
    };
    if c.port.is_stream() {
        if !from_kind.has_stream_output() {
            return Some(NoteGraphError::InvalidStreamEndpoint(c.from));
        }
        if !to_kind.has_stream_input() {
            return Some(NoteGraphError::InvalidStreamEndpoint(c.to));
        }
        let mut j: usize = 0;
        while j < i
            invariant
                i < conns.len(),
                j <= i,
                c == conns@[i as int],
                forall|k: int|
                    0 <= k < j ==> !(conns@[k].port == NotePortType::NoteStream && conns@[k].from
                        == c.from),
            decreases i - j,
        {
            if conns[j].port.is_stream() && conns[j].from == c.from {
                return Some(NoteGraphError::DuplicateStreamOutput(c.from));
            }
            j += 1;
        }
        let mut j: usize = 0;
        while j < i
            invariant
                i < conns.len(),
                j <= i,
                c == conns@[i as int],
                forall|k: int|
                    0 <= k < j ==> !(conns@[k].port == NotePortType::NoteStream && conns@[k].to
                        == c.to),
            decreases i - j,
        {
            if conns[j].port.is_stream() && conns[j].to == c.to {
                return Some(NoteGraphError::DuplicateStreamInput(c.to));
            }
            j += 1;
        }
        None
    } else {
        if !from_kind.is_value_source() {
            return Some(NoteGraphError::NotValueSource(c.from));
        }
        if c.to_input >= to_kind.value_input_count() {
            return Some(NoteGraphError::InvalidValueInput(c.to, c.to_input));
        }
        let mut j: usize = 0;
        while j < i
            invariant
                i < conns.len(),
                j <= i,
                c == conns@[i as int],
                forall|k: int|
                    0 <= k < j ==> !(conns@[k].port != NotePortType::NoteStream && conns@[k].to
                        == c.to && conns@[k].to_input == c.to_input),
            decreases i - j,
        {
            if !conns[j].port.is_stream() && conns[j].to == c.to && conns[j].to_input == c.to_input {
                return Some(NoteGraphError::DuplicateValueInput(c.to, c.to_input));
            }
            j += 1;
        }
        None
    }
}

/// The first connection error (see [`first_conn_error`]).
fn first_error<C>(nodes: &Vec<NoteNode<C>>, conns: &Vec<NoteConnection>) -> (r: Option<
    NoteGraphError,
>)
    requires
        note_nodes_sorted(nodes@),
    ensures
        r == first_conn_error(nodes@, conns@, 0),
{
    let mut i: usize = 0;
    while i < conns.len()
        invariant
            i <= conns.len(),
            note_nodes_sorted(nodes@),
            first_conn_error(nodes@, conns@, 0) == first_conn_error(nodes@, conns@, i as int),
        decreases conns.len() - i,
    {
        let e = conn_error_at(nodes, conns, i);
        if e.is_some() {
            return e;
        }
        i += 1;
    }
    None
}

// ----------------------------------------------------------------------------
// Evaluation order and the active stream spine
// ----------------------------------------------------------------------------

/// The raw ids of a sequence of module ids.
pub open spec fn module_ids(order: Seq<NoteModuleId>) -> Seq<u32> {
    order.map_values(|m: NoteModuleId| m.0)
}

/// The evaluation order of a valid graph: the Kahn order of its nodes,
/// smallest ready id first (see [`is_kahn_order`]).
pub open spec fn spec_order<C>(nodes: Seq<NoteNode<C>>, conns: Seq<NoteConnection>) -> Seq<NoteModuleId> {
    choose|o: Seq<NoteModuleId>| is_kahn_order(note_node_ids(nodes), conn_edges(conns), module_ids(o))
}

proof fn lemma_module_ids_injective(a: Seq<NoteModuleId>, b: Seq<NoteModuleId>)
    requires
        module_ids(a) == module_ids(b),
    ensures
        a == b,
{
    assert(a.len() == module_ids(a).len());
    assert(b.len() == module_ids(b).len());
    assert forall|i: int| 0 <= i < a.len() implies a[i] == b[i] by {
        assert(module_ids(a)[i] == a[i].0);
        assert(module_ids(b)[i] == b[i].0);
    }
    assert(a =~= b);
}

/// Any sequence whose ids form the Kahn order is the evaluation order.
proof fn lemma_spec_order<C>(nodes: Seq<NoteNode<C>>, conns: Seq<NoteConnection>, o: Seq<NoteModuleId>)
    requires
        is_kahn_order(note_node_ids(nodes), conn_edges(conns), module_ids(o)),
    ensures
        spec_order(nodes, conns) == o,
{
    let c = spec_order(nodes, conns);
    crate::dag::lemma_kahn_order_unique(
        note_node_ids(nodes),
        conn_edges(conns),
        module_ids(c),
        module_ids(o),
    );
    lemma_module_ids_injective(c, o);
}

/// Some stream edge leaves node `id`.
pub open spec fn stream_consumer(conns: Seq<NoteConnection>, id: NoteModuleId) -> bool {
    exists|j: int|
        0 <= j < conns.len() && conns[j].port == NotePortType::NoteStream && conns[j].from == id
}

/// Node `k` ends a stream chain: it emits a stream and feeds no stream edge.
pub open spec fn is_terminal<C>(nodes: Seq<NoteNode<C>>, conns: Seq<NoteConnection>, k: int) -> bool {
    0 <= k < nodes.len() && kind_stream_output(nodes[k].kind) && !stream_consumer(conns, nodes[k].id)
}

/// The source of the first stream edge into `t` at position `j` or later.
pub open spec fn stream_feed(conns: Seq<NoteConnection>, t: NoteModuleId, j: int) -> Option<
    NoteModuleId,
>
    decreases conns.len() - j,
{
    if j < 0 || j >= conns.len() {
        None
    } else if conns[j].port == NotePortType::NoteStream && conns[j].to == t {
        Some(conns[j].from)
    } else {
        stream_feed(conns, t, j + 1)
    }
}

/// The stream chain ending at `t`, walked upstream (terminal first) along
/// the first stream edge into each node, for at most `fuel` edges.
pub open spec fn walk_up(conns: Seq<NoteConnection>, t: NoteModuleId, fuel: nat) -> Seq<NoteModuleId>
    decreases fuel,
{
    if fuel == 0 {
        seq![t]
    } else {
        match stream_feed(conns, t, 0) {
            None => seq![t],
            Some(f) => seq![t] + walk_up(conns, f, (fuel - 1) as nat),
        }
    }
}

/// The chain ending at node `k`, terminal first. The walk is bounded by the
/// node count; an acyclic chain never reaches that bound.
pub open spec fn chain_at<C>(nodes: Seq<NoteNode<C>>, conns: Seq<NoteConnection>, k: int) -> Seq<
    NoteModuleId,
> {
    walk_up(conns, nodes[k].id, nodes.len())
}

/// Node `k` is the terminal of the active spine: its chain is the longest,
/// and among the longest it has the smallest id.
pub open spec fn is_best_terminal<C>(nodes: Seq<NoteNode<C>>, conns: Seq<NoteConnection>, k: int) -> bool {
    &&& is_terminal(nodes, conns, k)
    &&& forall|m: int|
        #![trigger is_terminal(nodes, conns, m)]
        is_terminal(nodes, conns, m) ==> chain_at(nodes, conns, m).len() < chain_at(
            nodes,
            conns,
            k,
        ).len() || (chain_at(nodes, conns, m).len() == chain_at(nodes, conns, k).len() && k <= m)
}

/// The active `NoteStream` spine, head first: the chain of the best
/// terminal, or nothing when no node emits an unconsumed stream.
pub open spec fn spec_spine<C>(nodes: Seq<NoteNode<C>>, conns: Seq<NoteConnection>) -> Seq<NoteModuleId> {
    if exists|k: int| is_best_terminal(nodes, conns, k) {
        chain_at(nodes, conns, choose|k: int| is_best_terminal(nodes, conns, k)).reverse()
    } else {
        Seq::empty()
    }
}

proof fn lemma_best_terminal_unique<C>(
    nodes: Seq<NoteNode<C>>,
    conns: Seq<NoteConnection>,
    a: int,
    b: int,
)
    requires
        is_best_terminal(nodes, conns, a),
        is_best_terminal(nodes, conns, b),
    ensures
        a == b,
{
    assert(is_terminal(nodes, conns, a));
    assert(is_terminal(nodes, conns, b));
}

/// The source of the first stream edge into `t`.
fn stream_feed_of(conns: &Vec<NoteConnection>, t: NoteModuleId) -> (r: Option<NoteModuleId>)
    ensures
        r == stream_feed(conns@, t, 0),
{
    let mut j: usize = 0;
    while j < conns.len()
        invariant
            j <= conns.len(),
            stream_feed(conns@, t, 0) == stream_feed(conns@, t, j as int),
        decreases conns.len() - j,
    {
        if conns[j].port.is_stream() && conns[j].to == t {
            return Some(conns[j].from);
        }
        j += 1;
    }
    None
}

/// Whether some stream edge leaves `id`.
fn is_stream_consumer(conns: &Vec<NoteConnection>, id: NoteModuleId) -> (r: bool)
    ensures
        r == stream_consumer(conns@, id),
{
    let mut j: usize = 0;
    while j < conns.len()
        invariant
            j <= conns.len(),
            forall|k: int|
                0 <= k < j ==> !(conns@[k].port == NotePortType::NoteStream && conns@[k].from == id),
        decreases conns.len() - j,
    {
        if conns[j].port.is_stream() && conns[j].from == id {
            return true;
        }
        j += 1;
    }
    false
}

/// The chain ending at `t`, terminal first (see [`walk_up`]).
fn walk_chain(conns: &Vec<NoteConnection>, t: NoteModuleId, fuel: usize) -> (r: Vec<NoteModuleId>)
    ensures
        r@ == walk_up(conns@, t, fuel as nat),
{
    let mut chain: Vec<NoteModuleId> = Vec::new();
    chain.push(t);
    let mut current = t;
    let mut steps: usize = 0;
    let mut done = false;
    while !done && steps < fuel
        invariant
            steps <= fuel,
            chain@.len() == steps + 1,
            chain@.last() == current,
            walk_up(conns@, t, fuel as nat) == chain@.subrange(0, steps as int) + walk_up(
                conns@,
                current,
                (fuel - steps) as nat,
            ),
            done ==> walk_up(conns@, current, (fuel - steps) as nat) == seq![current],
        decreases fuel - steps, (if done {
            0int
        } else {
            1int
        }),
    {
        match stream_feed_of(conns, current) {
            None => {
                done = true;
            },
            Some(f) => {
                let ghost before = chain@;
                proof {
                    assert(walk_up(conns@, current, (fuel - steps) as nat) == seq![current] + walk_up(
                        conns@,
                        f,
                        (fuel - steps - 1) as nat,
                    ));
                }
                chain.push(f);
                current = f;
                steps += 1;
                proof {
                    assert(chain@.subrange(0, steps as int) =~= before);
                    assert(before =~= before.subrange(0, (steps - 1) as int) + seq![before.last()]);
                    assert(walk_up(conns@, t, fuel as nat) =~= chain@.subrange(0, steps as int)
                        + walk_up(conns@, current, (fuel - steps) as nat));
                }
            },
        }
    }
    proof {
        assert(walk_up(conns@, current, (fuel - steps) as nat) == seq![current]);
        assert(chain@ =~= chain@.subrange(0, steps as int) + seq![current]);
    }
    chain
}

/// `v` in reverse order.
fn reversed(v: &Vec<NoteModuleId>) -> (r: Vec<NoteModuleId>)
    ensures
        r@ == v@.reverse(),
{
    let mut r: Vec<NoteModuleId> = Vec::new();
    let mut i: usize = v.len();
    while i > 0
        invariant
            i <= v.len(),
            r@.len() == v.len() - i,
            forall|k: int| 0 <= k < r@.len() ==> r@[k] == v@[v.len() - 1 - k],
        decreases i,
    {
        i -= 1;
        r.push(v[i]);
    }
    proof {
        if v@.len() == 0 {
            assert(r@ =~= v@.reverse());
        } else {
            assert(r@ =~= v@.reverse());
        }
    }
    r
}

/// The active spine (see [`spec_spine`]).
fn compute_spine<C>(nodes: &Vec<NoteNode<C>>, conns: &Vec<NoteConnection>) -> (r: Vec<NoteModuleId>)
    ensures
        r@ == spec_spine(nodes@, conns@),
{
    let n = nodes.len();
    let mut best: Vec<NoteModuleId> = Vec::new();
    let ghost mut best_k: int = -1;
    let mut k: usize = 0;
    while k < n
        invariant
            n == nodes.len(),
            k <= n,
            -1 <= best_k < k,
            best_k == -1 ==> best@.len() == 0 && forall|m: int|
                0 <= m < k ==> !#[trigger] is_terminal(nodes@, conns@, m),
            best_k >= 0 ==> is_terminal(nodes@, conns@, best_k) && best@ == chain_at(
                nodes@,
                conns@,
                best_k,
            ) && forall|m: int|
                0 <= m < k && #[trigger] is_terminal(nodes@, conns@, m) ==> chain_at(
                    nodes@,
                    conns@,
                    m,
                ).len() < best@.len() || (chain_at(nodes@, conns@, m).len() == best@.len()
                    && best_k <= m),
        decreases n - k,
    {
        if nodes[k].kind.has_stream_output() && !is_stream_consumer(conns, nodes[k].id) {
            let chain = walk_chain(conns, nodes[k].id, n);
            proof {
                assert(is_terminal(nodes@, conns@, k as int));
                assert(chain@ == chain_at(nodes@, conns@, k as int));
                assert(chain@.len() >= 1);
            }
            if chain.len() > best.len() {
                let ghost old_len = best@.len();
                let ghost old_k = best_k;
                proof {
                    assert forall|m: int|
                        0 <= m < k && #[trigger] is_terminal(nodes@, conns@, m) implies chain_at(
                        nodes@,
                        conns@,
                        m,
                    ).len() <= old_len by {
                        if old_k == -1 {
                            assert(!is_terminal(nodes@, conns@, m));
                        }
                    }
                }
                best = chain;
                proof {
                    best_k = k as int;
                    assert forall|m: int|
                        0 <= m < k + 1 && #[trigger] is_terminal(nodes@, conns@, m) implies chain_at(
                        nodes@,
                        conns@,
                        m,
                    ).len() < best@.len() || (chain_at(nodes@, conns@, m).len() == best@.len()
                        && best_k <= m) by {
                        if m < k {
                            assert(chain_at(nodes@, conns@, m).len() <= old_len);
                        }
                    }
                }
            }
        } else {
            proof {
                assert(!is_terminal(nodes@, conns@, k as int));
            }
        }
        k += 1;
    }
    proof {
        if best_k >= 0 {
            assert(is_best_terminal(nodes@, conns@, best_k));
            let c = choose|c: int| is_best_terminal(nodes@, conns@, c);
            lemma_best_terminal_unique(nodes@, conns@, c, best_k);
        } else {
            if exists|c: int| is_best_terminal(nodes@, conns@, c) {
                let c = choose|c: int| is_best_terminal(nodes@, conns@, c);
                assert(is_terminal(nodes@, conns@, c));
                assert(0 <= c < k);
                assert(!is_terminal(nodes@, conns@, c));
            }
        }
    }
    reversed(&best)
}

// ----------------------------------------------------------------------------
// Conversions between the node / connection lists and the id graph
// ----------------------------------------------------------------------------

/// Every connection passing validation has both endpoints among the nodes.
proof fn lemma_valid_edges_within<C>(nodes: Seq<NoteNode<C>>, conns: Seq<NoteConnection>)
    requires
        first_conn_error(nodes, conns, 0) is None,
    ensures
        crate::dag::edges_within(note_node_ids(nodes), conn_edges(conns)),
{
    lemma_first_conn_error_none(nodes, conns, 0);
    let ids = note_node_ids(nodes);
    let edges = conn_edges(conns);
    assert forall|e: int| 0 <= e < edges.len() implies ids.contains(#[trigger] edges[e].0)
        && ids.contains(edges[e].1) by {
        assert(conn_error(nodes, conns, e) is None);
        lemma_has_note_node_ids(nodes, conns[e].from);
        lemma_has_note_node_ids(nodes, conns[e].to);
    }
}

/// The node ids, in order.
fn node_id_vec<C>(nodes: &Vec<NoteNode<C>>) -> (r: Vec<u32>)
    ensures
        r@ == note_node_ids(nodes@),
{
    let mut ids: Vec<u32> = Vec::new();
    let mut k: usize = 0;
    while k < nodes.len()
        invariant
            k <= nodes.len(),
            ids@ == note_node_ids(nodes@).subrange(0, k as int),
        decreases nodes.len() - k,
    {
        ids.push(nodes[k].id.0);
        k += 1;
        proof {
            assert(ids@ =~= note_node_ids(nodes@).subrange(0, k as int));
        }
    }
    proof {
        assert(ids@ =~= note_node_ids(nodes@));
    }
    ids
}

/// The connections as id pairs.
fn edge_vec(conns: &Vec<NoteConnection>) -> (r: Vec<(u32, u32)>)
    ensures
        r@ == conn_edges(conns@),
{
    let mut edges: Vec<(u32, u32)> = Vec::new();
    let mut k: usize = 0;
    while k < conns.len()
        invariant
            k <= conns.len(),
            edges@ == conn_edges(conns@).subrange(0, k as int),
        decreases conns.len() - k,
    {
        edges.push((conns[k].from.0, conns[k].to.0));
        k += 1;
        proof {
            assert(edges@ =~= conn_edges(conns@).subrange(0, k as int));
        }
    }
    proof {
        assert(edges@ =~= conn_edges(conns@));
    }
    edges
}

/// Raw ids as module ids.
fn to_module_ids(v: &Vec<u32>) -> (r: Vec<NoteModuleId>)
    ensures
        module_ids(r@) == v@,
{
    let mut out: Vec<NoteModuleId> = Vec::new();
    let mut k: usize = 0;
    while k < v.len()
        invariant
            k <= v.len(),
            out@.len() == k,
            forall|i: int| 0 <= i < k ==> out@[i].0 == v@[i],
        decreases v.len() - k,
    {
        out.push(NoteModuleId::new(v[k]));
        k += 1;
    }
    proof {
        assert forall|i: int| 0 <= i < v@.len() implies module_ids(out@)[i] == v@[i] by {
            assert(module_ids(out@)[i] == out@[i].0);
        }
        assert(module_ids(out@) =~= v@);
    }
    out
}

// ----------------------------------------------------------------------------
// Removing nodes and connections
// ----------------------------------------------------------------------------

/// A connection touches this node.
pub open spec fn conn_touches(c: NoteConnection, id: NoteModuleId) -> bool {
    c.from == id || c.to == id
}

/// The connections that do not touch node `id`, in order.
pub open spec fn conns_apart_from(conns: Seq<NoteConnection>, id: NoteModuleId) -> Seq<NoteConnection>
    decreases conns.len(),
{
    if conns.len() == 0 {
        conns
    } else {
        let rest = conns_apart_from(conns.drop_last(), id);
        if conn_touches(conns.last(), id) {
            rest
        } else {
            rest.push(conns.last())
        }
    }
}

/// The connections that do not touch node `id`, with the positions (in the
/// original list) of those kept.
fn keep_apart_from(conns: &Vec<NoteConnection>, id: NoteModuleId) -> (r: (
    Vec<NoteConnection>,
    Ghost<Seq<int>>,
))
    ensures
        r.0@ == conns_apart_from(conns@, id),
        r.1@.len() == r.0@.len(),
        forall|k: int| 0 <= k < r.1@.len() ==> 0 <= #[trigger] r.1@[k] < conns@.len(),
        forall|k: int, l: int| 0 <= k < l < r.1@.len() ==> r.1@[k] < r.1@[l],
        forall|k: int| 0 <= k < r.1@.len() ==> r.0@[k] == conns@[#[trigger] r.1@[k]],
        forall|k: int| 0 <= k < r.0@.len() ==> !conn_touches(#[trigger] r.0@[k], id),
{
    let mut kept: Vec<NoteConnection> = Vec::new();
    let ghost mut keep: Seq<int> = Seq::empty();
    let mut i: usize = 0;
    while i < conns.len()
        invariant
            i <= conns.len(),
            kept@ == conns_apart_from(conns@.take(i as int), id),
            keep.len() == kept@.len(),
            forall|k: int| 0 <= k < keep.len() ==> 0 <= #[trigger] keep[k] < i,
            forall|k: int, l: int| 0 <= k < l < keep.len() ==> keep[k] < keep[l],
            forall|k: int| 0 <= k < keep.len() ==> kept@[k] == conns@[#[trigger] keep[k]],
            forall|k: int| 0 <= k < kept@.len() ==> !conn_touches(#[trigger] kept@[k], id),
        decreases conns.len() - i,
    {
        let c = conns[i];
        proof {
            assert(conns@.take(i + 1).drop_last() =~= conns@.take(i as int));
        }
        if c.from != id && c.to != id {
            kept.push(c);
            proof {
                keep = keep.push(i as int);
            }
        }
        i += 1;
    }
    proof {
        assert(conns@.take(conns.len() as int) =~= conns@);
    }
    (kept, Ghost(keep))
}

/// A node of a sublist (whose nodes all come from the full list) has the
/// same kind in both.
proof fn lemma_kind_in_sub<C>(nodes: Seq<NoteNode<C>>, sub: Seq<NoteNode<C>>, x: NoteModuleId)
    requires
        note_nodes_sorted(nodes),
        note_nodes_sorted(sub),
        forall|i: int| 0 <= i < sub.len() ==> exists|j: int|
            0 <= j < nodes.len() && nodes[j] == #[trigger] sub[i],
        has_note_node(sub, x),
    ensures
        has_note_node(nodes, x),
        kind_of(sub, x) == kind_of(nodes, x),
{
    let i = note_node_index(sub, x);
    let j = choose|j: int| 0 <= j < nodes.len() && nodes[j] == sub[i];
    lemma_note_index_unique(nodes, j);
    lemma_note_index_unique(sub, i);
}

/// Dropping connections (keeping the rest in order) and nodes that no
/// remaining connection touches never makes a valid graph invalid: no
/// endpoint goes missing, no port gains a second edge, and no cycle forms.
pub proof fn lemma_note_subgraph_valid<C>(
    nodes: Seq<NoteNode<C>>,
    conns: Seq<NoteConnection>,
    sub_nodes: Seq<NoteNode<C>>,
    sub_conns: Seq<NoteConnection>,
    keep: Seq<int>,
)
    requires
        note_validation(nodes, conns) is Ok,
        note_nodes_sorted(nodes),
        note_nodes_sorted(sub_nodes),
        keep.len() == sub_conns.len(),
        forall|k: int| 0 <= k < keep.len() ==> 0 <= #[trigger] keep[k] < conns.len(),
        forall|k: int, l: int| 0 <= k < l < keep.len() ==> keep[k] < keep[l],
        forall|k: int| 0 <= k < keep.len() ==> sub_conns[k] == conns[#[trigger] keep[k]],
        forall|i: int| 0 <= i < sub_nodes.len() ==> exists|j: int|
            0 <= j < nodes.len() && nodes[j] == #[trigger] sub_nodes[i],
        forall|k: int|
            0 <= k < sub_conns.len() ==> has_note_node(sub_nodes, #[trigger] sub_conns[k].from)
                && has_note_node(sub_nodes, sub_conns[k].to),
    ensures
        note_validation(sub_nodes, sub_conns) is Ok,
{
    lemma_first_conn_error_none(nodes, conns, 0);
    lemma_first_conn_error_none(sub_nodes, sub_conns, 0);
    assert forall|k: int| 0 <= k < sub_conns.len() implies #[trigger] conn_error(
        sub_nodes,
        sub_conns,
        k,
    ) is None by {
        let i = keep[k];
        let c = sub_conns[k];
        assert(c == conns[i]);
        assert(conn_error(nodes, conns, i) is None);
        if exists|j: int| 0 <= j < k && sub_conns[j] == c {
            let j = choose|j: int| 0 <= j < k && sub_conns[j] == c;
            assert(conns[keep[j]] == c && keep[j] < i);
        }
        lemma_kind_in_sub(nodes, sub_nodes, c.from);
        lemma_kind_in_sub(nodes, sub_nodes, c.to);
        if c.port == NotePortType::NoteStream {
            if exists|j: int|
                0 <= j < k && sub_conns[j].port == NotePortType::NoteStream && sub_conns[j].from
                    == c.from {
                let j = choose|j: int|
                    0 <= j < k && sub_conns[j].port == NotePortType::NoteStream
                        && sub_conns[j].from == c.from;
                assert(conns[keep[j]] == sub_conns[j] && keep[j] < i);
            }
            if exists|j: int|
                0 <= j < k && sub_conns[j].port == NotePortType::NoteStream && sub_conns[j].to
                    == c.to {
                let j = choose|j: int|
                    0 <= j < k && sub_conns[j].port == NotePortType::NoteStream && sub_conns[j].to
                        == c.to;
                assert(conns[keep[j]] == sub_conns[j] && keep[j] < i);
            }
        } else {
            if exists|j: int|
                0 <= j < k && sub_conns[j].port != NotePortType::NoteStream && sub_conns[j].to
                    == c.to && sub_conns[j].to_input == c.to_input {
                let j = choose|j: int|
                    0 <= j < k && sub_conns[j].port != NotePortType::NoteStream
                        && sub_conns[j].to == c.to && sub_conns[j].to_input == c.to_input;
                assert(conns[keep[j]] == sub_conns[j] && keep[j] < i);
            }
        }
    }
    let ids = note_node_ids(nodes);
    let edges = conn_edges(conns);
    let sub_ids = note_node_ids(sub_nodes);
    let sub_edges = conn_edges(sub_conns);
    let order = choose|order: Seq<u32>| is_topological(ids, edges, order);
    assert(is_topological(sub_ids, sub_edges, order)) by {
        assert forall|k: int| 0 <= k < sub_ids.len() implies order.contains(#[trigger] sub_ids[k]) by {
            let j = choose|j: int| 0 <= j < nodes.len() && nodes[j] == sub_nodes[k];
            assert(ids[j] == sub_ids[k]);
        }
        assert forall|e: int, j: int|
            #![trigger sub_edges[e], order[j]]
            0 <= e < sub_edges.len() && 0 <= j < order.len() && order[j] == sub_edges[e].1 implies exists|
            i: int,
        | 0 <= i < j && order[i] == sub_edges[e].0 by {
            assert(sub_edges[e] == edges[keep[e]]);
            assert(order[j] == edges[keep[e]].1);
        }
    }
}

/// Removing node `i` and the connections touching it (keeping the rest in
/// order) leaves a valid graph valid.
proof fn lemma_note_removal_valid<C>(
    nodes: Seq<NoteNode<C>>,
    conns: Seq<NoteConnection>,
    i: int,
    kept: Seq<NoteConnection>,
    keep: Seq<int>,
)
    requires
        note_validation(nodes, conns) is Ok,
        note_nodes_sorted(nodes),
        0 <= i < nodes.len(),
        keep.len() == kept.len(),
        forall|k: int| 0 <= k < keep.len() ==> 0 <= #[trigger] keep[k] < conns.len(),
        forall|k: int, l: int| 0 <= k < l < keep.len() ==> keep[k] < keep[l],
        forall|k: int| 0 <= k < keep.len() ==> kept[k] == conns[#[trigger] keep[k]],
        forall|k: int| 0 <= k < kept.len() ==> !conn_touches(#[trigger] kept[k], nodes[i].id),
    ensures
        note_validation(nodes.remove(i), kept) is Ok,
{
    let sub = nodes.remove(i);
    lemma_first_conn_error_none(nodes, conns, 0);
    assert(note_nodes_sorted(sub)) by {
        assert forall|a: int, b: int| 0 <= a < b < sub.len() implies sub[a].id.0 < sub[b].id.0 by {
            if a < i && b < i {
            } else if a < i {
                assert(sub[b] == nodes[b + 1]);
            } else {
                assert(sub[a] == nodes[a + 1]);
                assert(sub[b] == nodes[b + 1]);
            }
        }
    }
    assert forall|k: int| 0 <= k < kept.len() implies has_note_node(sub, #[trigger] kept[k].from)
        && has_note_node(sub, kept[k].to) by {
        let c = kept[k];
        assert(c == conns[keep[k]]);
        assert(conn_error(nodes, conns, keep[k]) is None);
        let a = choose|a: int| 0 <= a < nodes.len() && nodes[a].id == c.from;
        let b = choose|b: int| 0 <= b < nodes.len() && nodes[b].id == c.to;
        if a < i {
            assert(sub[a].id == c.from);
        } else {
            assert(a != i);
            assert(sub[a - 1].id == c.from);
        }
        if b < i {
            assert(sub[b].id == c.to);
        } else {
            assert(b != i);
            assert(sub[b - 1].id == c.to);
        }
    }
    assert forall|k: int| 0 <= k < sub.len() implies exists|j: int|
        0 <= j < nodes.len() && nodes[j] == #[trigger] sub[k] by {
        if k < i {
            assert(nodes[k] == sub[k]);
        } else {
            assert(nodes[k + 1] == sub[k]);
        }
    }
    lemma_note_subgraph_valid(nodes, conns, sub, kept, keep);
}

// ----------------------------------------------------------------------------
// Repairing legacy connection sets
// ----------------------------------------------------------------------------

/// Connection `i` survives repair: a stream edge unless an equal edge comes
/// later; a `Value`/`Gate` edge unless a later one feeds the same input port
/// (the last such edge wins).
pub open spec fn sanitize_keeps(conns: Seq<NoteConnection>, i: int) -> bool {
    if conns[i].port == NotePortType::NoteStream {
        !exists|j: int| i < j < conns.len() && conns[j] == conns[i]
    } else {
        !exists|j: int|
            i < j < conns.len() && conns[j].port != NotePortType::NoteStream && conns[j].to
                == conns[i].to && conns[j].to_input == conns[i].to_input
    }
}

/// The surviving connections among the first `n`, in order.
pub open spec fn sanitized_upto(conns: Seq<NoteConnection>, n: int) -> Seq<NoteConnection>
    decreases n,
{
    if n <= 0 {
        Seq::empty()
    } else {
        let rest = sanitized_upto(conns, n - 1);
        if sanitize_keeps(conns, n - 1) {
            rest.push(conns[n - 1])
        } else {
            rest
        }
    }
}

/// No connection occurs twice and no input port is fed twice.
pub open spec fn conns_repaired(conns: Seq<NoteConnection>) -> bool {
    &&& forall|a: int, b: int| 0 <= a < b < conns.len() ==> conns[a] != conns[b]
    &&& forall|a: int, b: int|
        0 <= a < b < conns.len() && conns[a].port != NotePortType::NoteStream && conns[b].port
            != NotePortType::NoteStream ==> !(conns[a].to == conns[b].to && conns[a].to_input
            == conns[b].to_input)
}

/// In a valid connection set every connection survives repair.
proof fn lemma_valid_keeps_all<C>(nodes: Seq<NoteNode<C>>, conns: Seq<NoteConnection>, i: int)
    requires
        first_conn_error(nodes, conns, 0) is None,
        0 <= i < conns.len(),
    ensures
        sanitize_keeps(conns, i),
{
    lemma_first_conn_error_none(nodes, conns, 0);
    if conns[i].port == NotePortType::NoteStream {
        if exists|j: int| i < j < conns.len() && conns[j] == conns[i] {
            let j = choose|j: int| i < j < conns.len() && conns[j] == conns[i];
            assert(conn_error(nodes, conns, j) is None);
        }
    } else {
        if exists|j: int|
            i < j < conns.len() && conns[j].port != NotePortType::NoteStream && conns[j].to
                == conns[i].to && conns[j].to_input == conns[i].to_input {
            let j = choose|j: int|
                i < j < conns.len() && conns[j].port != NotePortType::NoteStream && conns[j].to
                    == conns[i].to && conns[j].to_input == conns[i].to_input;
            assert(conn_error(nodes, conns, j) is None);
        }
    }
}

proof fn lemma_sanitized_identity(conns: Seq<NoteConnection>, n: int)
    requires
        0 <= n <= conns.len(),
        forall|i: int| 0 <= i < conns.len() ==> #[trigger] sanitize_keeps(conns, i),
    ensures
        sanitized_upto(conns, n) == conns.take(n),
    decreases n,
{
    if n > 0 {
        lemma_sanitized_identity(conns, n - 1);
        assert(sanitize_keeps(conns, n - 1));
        assert(conns.take(n) =~= conns.take(n - 1).push(conns[n - 1]));
    } else {
        assert(conns.take(0) =~= Seq::<NoteConnection>::empty());
    }
}

// ----------------------------------------------------------------------------
// How far past an onset the graph reaches
// ----------------------------------------------------------------------------

/// The tick span of a chord's strum (see `Chord::strum_tail`).
pub open spec fn chord_tail(c: Chord) -> int {
    crate::note_processor::min_int(
        (if c@.len() > 0 {
            c@.len() - 1
        } else {
            0
        }) * c.spec_strum().0,
        u32::MAX as int,
    )
}

/// The largest strum tail among the chord nodes (0 when there is none).
pub open spec fn max_strum<C>(nodes: Seq<NoteNode<C>>) -> int
    decreases nodes.len(),
{
    if nodes.len() == 0 {
        0
    } else {
        let m = max_strum(nodes.drop_last());
        match nodes.last().kind {
            NoteModuleKind::Chord(c) => if chord_tail(c) > m {
                chord_tail(c)
            } else {
                m
            },
            _ => m,
        }
    }
}

/// The reach of a timing node (0 for other kinds).
pub open spec fn timing_tail(k: NoteModuleKind) -> int {
    match k {
        NoteModuleKind::NoteDelay(d) => reach(
            if d.repeats < MAX_DELAY_REPEATS {
                d.repeats as int
            } else {
                MAX_DELAY_REPEATS as int
            },
            d.delay_ticks.0 as int,
        ),
        NoteModuleKind::Ratchet(r) => {
            let live = if r.count < MAX_RATCHET_SUBDIVISIONS {
                r.count as int
            } else {
                MAX_RATCHET_SUBDIVISIONS as int
            };
            reach(if live > 0 { live - 1 } else { 0 }, r.sub_ticks.0 as int)
        },
        _ => 0,
    }
}

/// The largest timing reach among the nodes (0 when there is none).
pub open spec fn max_timing<C>(nodes: Seq<NoteNode<C>>) -> int
    decreases nodes.len(),
{
    if nodes.len() == 0 {
        0
    } else {
        let m = max_timing(nodes.drop_last());
        if timing_tail(nodes.last().kind) > m {
            timing_tail(nodes.last().kind)
        } else {
            m
        }
    }
}

/// The spine is headed by a pure generator (a stream emitter without a
/// stream input).
pub open spec fn head_is_generator<C>(nodes: Seq<NoteNode<C>>, spine: Seq<NoteModuleId>) -> bool {
    spine.len() > 0 && has_note_node(nodes, spine[0]) && !kind_stream_input(kind_of(nodes, spine[0]))
}

/// An upstream pitch transform an arpeggiator / strummed chord consumes:
/// scale-quantize, or a block chord.
pub open spec fn is_pitch_transform<C>(nodes: Seq<NoteNode<C>>, id: NoteModuleId) -> bool {
    has_note_node(nodes, id) && match kind_of(nodes, id) {
        NoteModuleKind::ScaleQuantize(_) => true,
        NoteModuleKind::Chord(c) => c.spec_strum().0 == 0,
        _ => false,
    }
}

/// A node that rebuilds its stream from the source notes: an arpeggiator or
/// a strummed chord.
pub open spec fn is_source_context<C>(nodes: Seq<NoteNode<C>>, id: NoteModuleId) -> bool {
    has_note_node(nodes, id) && match kind_of(nodes, id) {
        NoteModuleKind::Arpeggiator => true,
        NoteModuleKind::Chord(c) => c.spec_strum().0 > 0,
        _ => false,
    }
}

/// Node `id` is a source-context node and some spine node before it (or any
/// spine node, when `id` is not on the spine) is not a pitch transform.
pub open spec fn ignores_upstream<C>(
    nodes: Seq<NoteNode<C>>,
    spine: Seq<NoteModuleId>,
    id: NoteModuleId,
) -> bool {
    is_source_context(nodes, id) && exists|p: int|
        0 <= p < spine.len() && (forall|q: int| 0 <= q <= p ==> spine[q] != id)
            && !is_pitch_transform(nodes, #[trigger] spine[p])
}

// ----------------------------------------------------------------------------
// The graph
// ----------------------------------------------------------------------------

/// The derived evaluation order and spine are those of the node and
/// connection lists, and those lists pass validation.
pub open spec fn settled<C>(
    nodes: Seq<NoteNode<C>>,
    conns: Seq<NoteConnection>,
    order: Seq<NoteModuleId>,
    spine: Seq<NoteModuleId>,
) -> bool {
    &&& note_validation(nodes, conns) is Ok
    &&& order == spec_order(nodes, conns)
    &&& spine == spec_spine(nodes, conns)
}

/// Static note-graph configuration — a pooled project asset.
///
/// Nodes are kept ordered by id; the evaluation order and the active spine
/// are derived from the nodes and connections by [`NoteGraph::rebuild_derived`].
pub struct NoteGraph<C> {
    id: NoteGraphId,
    name: String,
    description: String,
    color: Option<TrackColor>,
    nodes: Vec<NoteNode<C>>,
    connections: Vec<NoteConnection>,
    processing_order: Vec<NoteModuleId>,
    stream_spine: Vec<NoteModuleId>,
}

impl<C> NoteGraph<C> {
    #[verifier::type_invariant]
    spec fn inv(self) -> bool {
        &&& note_nodes_sorted(self.nodes@)
        &&& self.nodes@.len() <= MAX_NOTE_GRID_NODES
    }

    /// The nodes, ordered by id.
    pub closed spec fn node_seq(&self) -> Seq<NoteNode<C>> {
        self.nodes@
    }

    /// The connections, in insertion order.
    pub closed spec fn conn_seq(&self) -> Seq<NoteConnection> {
        self.connections@
    }

    /// The derived evaluation order.
    pub closed spec fn order_seq(&self) -> Seq<NoteModuleId> {
        self.processing_order@
    }

    /// The derived active stream spine, head first.
    pub closed spec fn spine_seq(&self) -> Seq<NoteModuleId> {
        self.stream_spine@
    }

    pub closed spec fn spec_id(&self) -> NoteGraphId {
        self.id
    }

    pub closed spec fn spec_name(&self) -> Seq<char> {
        self.name@
    }

    /// The free-text description.
    pub closed spec fn spec_description(&self) -> Seq<char> {
        self.description@
    }

    /// The colour, if any.
    pub closed spec fn spec_color(&self) -> Option<TrackColor> {
        self.color
    }

    /// The derived state is up to date with a valid node and connection set.
    pub open spec fn is_settled(&self) -> bool {
        settled(self.node_seq(), self.conn_seq(), self.order_seq(), self.spine_seq())
    }

    /// Create an empty graph with the given id and name.
    pub fn new(id: NoteGraphId, name: String) -> (g: Self)
        ensures
            g.spec_id() == id,
            g.spec_name() == name@,
            g.node_seq().len() == 0,
            g.conn_seq().len() == 0,
            g.order_seq().len() == 0,
            g.spine_seq().len() == 0,
            g.is_settled(),
    {
        let g = NoteGraph {
            id,
            name,
            description: String::new(),
            color: None,
            nodes: Vec::new(),
            connections: Vec::new(),
            processing_order: Vec::new(),
            stream_spine: Vec::new(),
        };
        proof {
            let ids = note_node_ids(g.nodes@);
            let edges = conn_edges(g.connections@);
            assert(ids =~= Seq::empty());
            assert(edges =~= Seq::empty());
            assert(is_topological(ids, edges, Seq::empty()));
            assert(module_ids(g.processing_order@) =~= Seq::empty());
            assert(is_kahn_order(ids, edges, module_ids(g.processing_order@)));
            lemma_spec_order(g.nodes@, g.connections@, g.processing_order@);
            if exists|k: int| is_best_terminal(g.nodes@, g.connections@, k) {
                let k = choose|k: int| is_best_terminal(g.nodes@, g.connections@, k);
                assert(is_terminal(g.nodes@, g.connections@, k));
            }
            assert(g.stream_spine@ =~= spec_spine(g.nodes@, g.connections@));
        }
        g
    }

    /// Pool-unique id.
    pub fn id(&self) -> (r: NoteGraphId)
        ensures
            r == self.spec_id(),
    {
        self.id
    }

    /// User-facing name.
    pub fn name(&self) -> (r: &String)
        ensures
            r@ == self.spec_name(),
    {
        &self.name
    }

    /// Rename the graph.
    pub fn set_name(&mut self, name: String)
        ensures
            final(self).spec_description() == old(self).spec_description(),
            final(self).spec_color() == old(self).spec_color(),
            final(self).spec_name() == name@,
            final(self).spec_id() == old(self).spec_id(),
            final(self).node_seq() == old(self).node_seq(),
            final(self).conn_seq() == old(self).conn_seq(),
            final(self).order_seq() == old(self).order_seq(),
            final(self).spine_seq() == old(self).spine_seq(),
    {
        proof {
            use_type_invariant(&*self);
        }
        self.name = name;
    }

    /// Free-text description.
    pub fn description(&self) -> (r: &String)
        ensures
            r@ == self.spec_description(),
    {
        &self.description
    }

    /// Replace the description.
    pub fn set_description(&mut self, description: String)
        ensures
            final(self).spec_color() == old(self).spec_color(),
            final(self).spec_description() == description@,
            final(self).spec_name() == old(self).spec_name(),
            final(self).spec_id() == old(self).spec_id(),
            final(self).node_seq() == old(self).node_seq(),
            final(self).conn_seq() == old(self).conn_seq(),
            final(self).order_seq() == old(self).order_seq(),
            final(self).spine_seq() == old(self).spine_seq(),
    {
        proof {
            use_type_invariant(&*self);
        }
        self.description = description;
    }

    /// Sequencer-side colour, if any.
    pub fn color(&self) -> (r: Option<TrackColor>)
        ensures
            r == self.spec_color(),
    {
        self.color
    }

    /// Set or clear the colour.
    pub fn set_color(&mut self, color: Option<TrackColor>)
        ensures
            final(self).spec_description() == old(self).spec_description(),
            final(self).spec_color() == color,
            final(self).spec_name() == old(self).spec_name(),
            final(self).spec_id() == old(self).spec_id(),
            final(self).node_seq() == old(self).node_seq(),
            final(self).conn_seq() == old(self).conn_seq(),
            final(self).order_seq() == old(self).order_seq(),
            final(self).spine_seq() == old(self).spine_seq(),
    {
        proof {
            use_type_invariant(&*self);
        }
        self.color = color;
    }

    /// The nodes, ordered by id.
    pub fn nodes(&self) -> (r: &Vec<NoteNode<C>>)
        ensures
            r@ == self.node_seq(),
    {
        &self.nodes
    }

    /// The connections.
    pub fn connections(&self) -> (r: &Vec<NoteConnection>)
        ensures
            r@ == self.conn_seq(),
    {
        &self.connections
    }

    /// The derived evaluation order.
    pub fn processing_order(&self) -> (r: &Vec<NoteModuleId>)
        ensures
            r@ == self.order_seq(),
    {
        &self.processing_order
    }

    /// The derived active `NoteStream` chain, head first.
    pub fn stream_spine(&self) -> (r: &Vec<NoteModuleId>)
        ensures
            r@ == self.spine_seq(),
    {
        &self.stream_spine
    }

    /// Number of nodes.
    pub fn node_count(&self) -> (n: usize)
        ensures
            n == self.node_seq().len(),
    {
        self.nodes.len()
    }

    /// Validate the connection set and recompute the evaluation order (Kahn
    /// topological sort, smallest id first) and the active stream spine.
    /// On error the derived order and spine are left unchanged.
    ///
    /// Rules: every connection endpoint must exist; the `NoteStream` axis is
    /// linear (each node at most one stream input and one stream output);
    /// `Value`/`Gate` edges come from modulation sources into existing input
    /// ports, one source per port; no connection twice; and the whole edge
    /// set (all port types) is acyclic.
    pub fn rebuild_derived(&mut self) -> (r: Result<(), NoteGraphError>)
        ensures
            final(self).spec_description() == old(self).spec_description(),
            final(self).spec_color() == old(self).spec_color(),
            r == note_validation(old(self).node_seq(), old(self).conn_seq()),
            final(self).node_seq() == old(self).node_seq(),
            final(self).conn_seq() == old(self).conn_seq(),
            final(self).spec_id() == old(self).spec_id(),
            final(self).spec_name() == old(self).spec_name(),
            r is Ok ==> final(self).is_settled(),
            r is Err ==> final(self).order_seq() == old(self).order_seq() && final(self).spine_seq()
                == old(self).spine_seq(),
    {
        proof {
            use_type_invariant(&*self);
        }
        if let Some(e) = first_error(&self.nodes, &self.connections) {
            return Err(e);
        }
        let ids = node_id_vec(&self.nodes);
        let edges = edge_vec(&self.connections);
        proof {
            lemma_valid_edges_within(self.nodes@, self.connections@);
        }
        match kahn_order(&ids, &edges) {
            None => Err(NoteGraphError::Cycle),
            Some(order) => {
                let order = to_module_ids(&order);
                proof {
                    lemma_spec_order(self.nodes@, self.connections@, order@);
                }
                let spine = compute_spine(&self.nodes, &self.connections);
                self.processing_order = order;
                self.stream_spine = spine;
                Ok(())
            },
        }
    }

    /// Insert (or replace) a node, enforcing the [`MAX_NOTE_GRID_NODES`] cap
    /// (replacing an existing id never trips the cap) and recomputing the
    /// derived state so the node takes effect immediately. Replacing a node
    /// can invalidate an existing edge; then the edit is rolled back.
    pub fn try_insert_node(&mut self, id: NoteModuleId, kind: NoteModuleKind, config: C) -> (r: Result<
        (),
        NoteGraphError,
    >)
        ensures
            final(self).spec_description() == old(self).spec_description(),
            final(self).spec_color() == old(self).spec_color(),
            ({
                let node = NoteNode { id, kind, config };
                let at_cap = !has_note_node(old(self).node_seq(), id) && old(self).node_seq().len()
                    >= MAX_NOTE_GRID_NODES;
                &&& r == if at_cap {
                    Err(NoteGraphError::NodeCapExceeded)
                } else {
                    note_validation(with_note_node(old(self).node_seq(), node), old(self).conn_seq())
                }
                &&& r is Ok ==> final(self).node_seq() == with_note_node(old(self).node_seq(), node)
                    && final(self).is_settled()
                &&& r is Err ==> final(self).node_seq() == old(self).node_seq()
            }),
            final(self).conn_seq() == old(self).conn_seq(),
            final(self).spec_id() == old(self).spec_id(),
            final(self).spec_name() == old(self).spec_name(),
            r is Err && old(self).is_settled() ==> final(self).order_seq() == old(self).order_seq()
                && final(self).spine_seq() == old(self).spine_seq(),
    {
        proof {
            use_type_invariant(&*self);
        }
        let pos = self.position(id);
        if pos.is_none() && self.nodes.len() >= MAX_NOTE_GRID_NODES {
            return Err(NoteGraphError::NodeCapExceeded);
        }
        let node = NoteNode { id, kind, config };
        let ghost new_node = node;
        let ghost old_nodes = self.nodes@;
        proof {
            lemma_with_note_node(old_nodes, new_node);
        }
        let mut nodes: Vec<NoteNode<C>> = Vec::new();
        std::mem::swap(&mut nodes, &mut self.nodes);
        let (at, previous) = Self::place_node(&mut nodes, node);
        self.nodes = nodes;
        let res = self.rebuild_derived();
        if res.is_err() {
            let mut nodes: Vec<NoteNode<C>> = Vec::new();
            std::mem::swap(&mut nodes, &mut self.nodes);
            match previous {
                Some(o) => {
                    nodes.remove(at);
                    nodes.insert(at, o);
                    proof {
                        assert(nodes@ =~= old_nodes);
                    }
                },
                None => {
                    nodes.remove(at);
                    proof {
                        assert(nodes@ =~= old_nodes);
                    }
                },
            }
            self.nodes = nodes;
            let _ = self.rebuild_derived();
        }
        res
    }

    /// Add a connection, validating linearity and acyclicity, then recompute
    /// the derived state. On error the connection is rolled back and the
    /// previous order is restored.
    pub fn try_connect(&mut self, connection: NoteConnection) -> (r: Result<(), NoteGraphError>)
        ensures
            final(self).spec_description() == old(self).spec_description(),
            final(self).spec_color() == old(self).spec_color(),
            r == note_validation(old(self).node_seq(), old(self).conn_seq().push(connection)),
            r is Ok ==> final(self).conn_seq() == old(self).conn_seq().push(connection)
                && final(self).is_settled(),
            r is Err ==> final(self).conn_seq() == old(self).conn_seq(),
            final(self).node_seq() == old(self).node_seq(),
            final(self).spec_id() == old(self).spec_id(),
            final(self).spec_name() == old(self).spec_name(),
            r is Err && old(self).is_settled() ==> final(self).order_seq() == old(self).order_seq()
                && final(self).spine_seq() == old(self).spine_seq(),
    {
        proof {
            use_type_invariant(&*self);
        }
        let ghost old_conns = self.connections@;
        let mut conns: Vec<NoteConnection> = Vec::new();
        std::mem::swap(&mut conns, &mut self.connections);
        conns.push(connection);
        self.connections = conns;
        let res = self.rebuild_derived();
        if res.is_err() {
            let mut conns: Vec<NoteConnection> = Vec::new();
            std::mem::swap(&mut conns, &mut self.connections);
            conns.pop();
            proof {
                assert(conns@ =~= old_conns);
            }
            self.connections = conns;
            let _ = self.rebuild_derived();
        }
        res
    }

    /// Remove a node and every connection touching it, then recompute the
    /// derived state. Dropping nodes and edges only relaxes constraints, so a
    /// valid graph stays valid and the recompute cannot fail. Returns the
    /// removed config, or `None` if the id was absent.
    pub fn remove_node(&mut self, id: NoteModuleId) -> (r: Option<C>)
        ensures
            final(self).spec_description() == old(self).spec_description(),
            final(self).spec_color() == old(self).spec_color(),
            r is None <==> !has_note_node(old(self).node_seq(), id),
            r matches Some(c) ==> c == note_node_map(old(self).node_seq())[id].config,
            final(self).node_seq() == without_note_node(old(self).node_seq(), id),
            r is None ==> final(self).conn_seq() == old(self).conn_seq() && final(self).order_seq()
                == old(self).order_seq() && final(self).spine_seq() == old(self).spine_seq(),
            r is Some ==> final(self).conn_seq() == conns_apart_from(old(self).conn_seq(), id),
            r is Some && note_validation(old(self).node_seq(), old(self).conn_seq()) is Ok
                ==> final(self).is_settled(),
            r is Some && note_validation(final(self).node_seq(), final(self).conn_seq()) is Ok
                ==> final(self).is_settled(),
            final(self).spec_id() == old(self).spec_id(),
            final(self).spec_name() == old(self).spec_name(),
    {
        proof {
            use_type_invariant(&*self);
        }
        let pos = self.position(id);
        match pos {
            None => None,
            Some(i) => {
                proof {
                    lemma_note_index_unique(self.nodes@, i as int);
                    lemma_without_note_node(self.nodes@, id);
                }
                let ghost old_nodes = self.nodes@;
                let ghost old_conns = self.connections@;
                let mut nodes: Vec<NoteNode<C>> = Vec::new();
                std::mem::swap(&mut nodes, &mut self.nodes);
                let removed = nodes.remove(i);
                self.nodes = nodes;
                let (kept, Ghost(keep)) = keep_apart_from(&self.connections, id);
                proof {
                    if note_validation(old_nodes, old_conns) is Ok {
                        lemma_note_removal_valid(old_nodes, old_conns, i as int, kept@, keep);
                    }
                }
                self.connections = kept;
                let _ = self.rebuild_derived();
                Some(removed.config)
            },
        }
    }

    /// Repair connection-set shapes that were legal before a validation rule
    /// existed, so older project files keep loading playable: exact duplicate
    /// edges collapse to one, and of several `Value`/`Gate` edges into the
    /// same input port only the last survives. A valid connection set is
    /// left as it is.
    pub fn sanitize_connections(&mut self)
        ensures
            final(self).spec_description() == old(self).spec_description(),
            final(self).spec_color() == old(self).spec_color(),
            final(self).conn_seq() == sanitized_upto(old(self).conn_seq(), old(self).conn_seq().len() as int),
            conns_repaired(final(self).conn_seq()),
            note_validation(old(self).node_seq(), old(self).conn_seq()) is Ok ==> final(self).conn_seq()
                == old(self).conn_seq(),
            final(self).node_seq() == old(self).node_seq(),
            final(self).order_seq() == old(self).order_seq(),
            final(self).spine_seq() == old(self).spine_seq(),
            final(self).spec_id() == old(self).spec_id(),
            final(self).spec_name() == old(self).spec_name(),
    {
        proof {
            use_type_invariant(&*self);
        }
        let n = self.connections.len();
        let mut kept: Vec<NoteConnection> = Vec::new();
        let ghost mut keep: Seq<int> = Seq::empty();
        let mut i: usize = 0;
        while i < n
            invariant
                n == self.connections.len(),
                i <= n,
                kept@ == sanitized_upto(self.connections@, i as int),
                keep.len() == kept@.len(),
                forall|k: int| 0 <= k < keep.len() ==> 0 <= #[trigger] keep[k] < i,
                forall|k: int, l: int| 0 <= k < l < keep.len() ==> keep[k] < keep[l],
                forall|k: int|
                    0 <= k < keep.len() ==> kept@[k] == self.connections@[#[trigger] keep[k]]
                        && sanitize_keeps(self.connections@, keep[k]),
            decreases n - i,
        {
            let c = self.connections[i];
            let stream = c.port.is_stream();
            let mut later = false;
            let mut j: usize = i + 1;
            while j < n && !later
                invariant
                    n == self.connections.len(),
                    i < n,
                    i + 1 <= j <= n,
                    c == self.connections@[i as int],
                    stream == (c.port == NotePortType::NoteStream),
                    later ==> if stream {
                        exists|k: int| i < k < n && self.connections@[k] == c
                    } else {
                        exists|k: int|
                            i < k < n && self.connections@[k].port != NotePortType::NoteStream
                                && self.connections@[k].to == c.to && self.connections@[k].to_input
                                == c.to_input
                    },
                    !later ==> forall|k: int|
                        i < k < j ==> if stream {
                            self.connections@[k] != c
                        } else {
                            !(self.connections@[k].port != NotePortType::NoteStream
                                && self.connections@[k].to == c.to
                                && self.connections@[k].to_input == c.to_input)
                        },
                decreases n - j,
            {
                let d = self.connections[j];
                if stream {
                    if d == c {
                        later = true;
                    }
                } else if !d.port.is_stream() && d.to == c.to && d.to_input == c.to_input {
                    later = true;
                }
                j += 1;
            }
            proof {
                assert(later == !sanitize_keeps(self.connections@, i as int));
            }
            if !later {
                kept.push(c);
                proof {
                    keep = keep.push(i as int);
                }
            }
            i += 1;
        }
        proof {
            let out = kept@;
            assert forall|a: int, b: int| 0 <= a < b < out.len() implies out[a] != out[b] by {
                assert(keep[a] < keep[b]);
                assert(sanitize_keeps(self.connections@, keep[a]));
                if out[a] == out[b] {
                    assert(self.connections@[keep[b]] == self.connections@[keep[a]]);
                }
            }
            assert forall|a: int, b: int|
                0 <= a < b < out.len() && out[a].port != NotePortType::NoteStream && out[b].port
                    != NotePortType::NoteStream implies !(out[a].to == out[b].to && out[a].to_input
                == out[b].to_input) by {
                assert(keep[a] < keep[b]);
                assert(sanitize_keeps(self.connections@, keep[a]));
                assert(self.connections@[keep[b]] == out[b]);
            }
            if note_validation(self.nodes@, self.connections@) is Ok {
                assert forall|i: int| 0 <= i < self.connections@.len() implies #[trigger] sanitize_keeps(
                    self.connections@,
                    i,
                ) by {
                    lemma_valid_keeps_all(self.nodes@, self.connections@, i);
                }
                lemma_sanitized_identity(self.connections@, n as int);
                assert(self.connections@.take(n as int) =~= self.connections@);
            }
        }
        self.connections = kept;
    }

    /// Whether the active spine is headed by a pure generator. Such a spine
    /// defines its own stream and ignores the pattern's source notes.
    pub fn stream_head_is_generator(&self) -> (b: bool)
        ensures
            b == head_is_generator(self.node_seq(), self.spine_seq()),
    {
        proof {
            use_type_invariant(self);
        }
        if self.stream_spine.len() == 0 {
            return false;
        }
        match find_note_kind(&self.nodes, self.stream_spine[0]) {
            None => false,
            Some(k) => !k.has_stream_input(),
        }
    }

    /// The furthest past a source onset any stream node reaches — the strum
    /// tail of any strummed chord node.
    pub fn max_strum_tail(&self) -> (r: u32)
        ensures
            r == max_strum(self.node_seq()),
    {
        let mut best: u32 = 0;
        let mut i: usize = 0;
        while i < self.nodes.len()
            invariant
                i <= self.nodes.len(),
                best == max_strum(self.nodes@.take(i as int)),
            decreases self.nodes.len() - i,
        {
            proof {
                assert(self.nodes@.take(i + 1).drop_last() =~= self.nodes@.take(i as int));
            }
            match self.nodes[i].kind {
                NoteModuleKind::Chord(c) => {
                    let t = c.strum_tail();
                    if t > best {
                        best = t;
                    }
                },
                _ => {},
            }
            i += 1;
        }
        proof {
            assert(self.nodes@.take(self.nodes.len() as int) =~= self.nodes@);
        }
        best
    }

    /// The furthest past a source onset any timing node reaches — the delay
    /// tail of any echo or ratchet node.
    pub fn max_delay_tail(&self) -> (r: u32)
        ensures
            r == max_timing(self.node_seq()),
    {
        let mut best: u32 = 0;
        let mut i: usize = 0;
        while i < self.nodes.len()
            invariant
                i <= self.nodes.len(),
                best == max_timing(self.nodes@.take(i as int)),
            decreases self.nodes.len() - i,
        {
            proof {
                assert(self.nodes@.take(i + 1).drop_last() =~= self.nodes@.take(i as int));
            }
            let t: u32 = match self.nodes[i].kind {
                NoteModuleKind::NoteDelay(d) => d.delay_tail(),
                NoteModuleKind::Ratchet(r) => r.ratchet_tail(),
                _ => 0,
            };
            if t > best {
                best = t;
            }
            i += 1;
        }
        proof {
            assert(self.nodes@.take(self.nodes.len() as int) =~= self.nodes@);
        }
        best
    }

    /// The graph's whole forward reach past a source onset — strum plus
    /// timing tails (saturating) — or 0 for a generator-headed spine, whose
    /// generator emits fresh onsets at every walked tick.
    pub fn max_walk_tail(&self) -> (r: u32)
        ensures
            r == if head_is_generator(self.node_seq(), self.spine_seq()) {
                0
            } else {
                crate::note_processor::min_int(
                    max_strum(self.node_seq()) + max_timing(self.node_seq()),
                    u32::MAX as int,
                )
            },
    {
        if self.stream_head_is_generator() {
            return 0;
        }
        let a = self.max_strum_tail();
        let b = self.max_delay_tail();
        a.saturating_add(b)
    }

    /// Whether `id` is an upstream pitch transform an arpeggiator / strummed
    /// chord consumes (scale-quantize or a block chord).
    fn is_arp_pitch_transform(&self, id: NoteModuleId) -> (b: bool)
        ensures
            b == is_pitch_transform(self.node_seq(), id),
    {
        proof {
            use_type_invariant(self);
        }
        match find_note_kind(&self.nodes, id) {
            Some(NoteModuleKind::ScaleQuantize(_)) => true,
            Some(NoteModuleKind::Chord(c)) => c.strum().0 == 0,
            _ => false,
        }
    }

    /// Whether node `node_id` is a source-context node (arpeggiator or
    /// strummed chord) that silently ignores an upstream stream node: both
    /// rebuild their stream from the source notes seen through pitch
    /// transforms only, so any other spine node before them has no effect.
    pub fn source_context_ignores_upstream(&self, node_id: NoteModuleId) -> (b: bool)
        ensures
            b == ignores_upstream(self.node_seq(), self.spine_seq(), node_id),
    {
        proof {
            use_type_invariant(self);
        }
        let source_context = match find_note_kind(&self.nodes, node_id) {
            Some(NoteModuleKind::Arpeggiator) => true,
            Some(NoteModuleKind::Chord(c)) => c.strum().0 > 0,
            _ => false,
        };
        if !source_context {
            return false;
        }
        let mut p: usize = 0;
        while p < self.stream_spine.len() && self.stream_spine[p] != node_id
            invariant
                p <= self.stream_spine.len(),
                is_source_context(self.nodes@, node_id),
                forall|q: int| 0 <= q < p ==> self.stream_spine@[q] != node_id,
                forall|q: int| 0 <= q < p ==> is_pitch_transform(self.nodes@, #[trigger] self.stream_spine@[q]),
            decreases self.stream_spine.len() - p,
        {
            if !self.is_arp_pitch_transform(self.stream_spine[p]) {
                proof {
                    assert(forall|q: int| 0 <= q <= p ==> self.stream_spine@[q] != node_id);
                }
                return true;
            }
            p += 1;
        }
        proof {
            if exists|w: int|
                0 <= w < self.stream_spine@.len() && (forall|q: int| 0 <= q <= w ==> self.stream_spine@[q] != node_id)
                    && !is_pitch_transform(self.nodes@, #[trigger] self.stream_spine@[w]) {
                let w = choose|w: int|
                    0 <= w < self.stream_spine@.len() && (forall|q: int| 0 <= q <= w ==> self.stream_spine@[q] != node_id)
                        && !is_pitch_transform(self.nodes@, #[trigger] self.stream_spine@[w]);
                if w >= p {
                    assert(self.stream_spine@[p as int] != node_id);
                }
            }
        }
        false
    }

    /// Replace the connection list as loaded from storage, without
    /// validating it; the derived order and spine are left as they were
    /// until the next [`Self::rebuild_derived`].
    pub fn set_connections(&mut self, connections: Vec<NoteConnection>)
        ensures
            final(self).spec_description() == old(self).spec_description(),
            final(self).spec_color() == old(self).spec_color(),
            final(self).conn_seq() == connections@,
            final(self).node_seq() == old(self).node_seq(),
            final(self).order_seq() == old(self).order_seq(),
            final(self).spine_seq() == old(self).spine_seq(),
            final(self).spec_id() == old(self).spec_id(),
            final(self).spec_name() == old(self).spec_name(),
    {
        proof {
            use_type_invariant(&*self);
        }
        self.connections = connections;
    }

    /// Position of the node with this id, if any.
    fn position(&self, id: NoteModuleId) -> (r: Option<usize>)
        ensures
            r matches Some(i) ==> i < self.node_seq().len() && self.node_seq()[i as int].id == id,
            r is None <==> !has_note_node(self.node_seq(), id),
    {
        let mut i: usize = 0;
        while i < self.nodes.len()
            invariant
                i <= self.nodes.len(),
                forall|k: int| 0 <= k < i ==> self.nodes@[k].id != id,
            decreases self.nodes.len() - i,
        {
            if self.nodes[i].id == id {
                return Some(i);
            }
            i += 1;
        }
        None
    }

    fn place_node(nodes: &mut Vec<NoteNode<C>>, node: NoteNode<C>) -> (r: (usize, Option<NoteNode<C>>))
        requires
            note_nodes_sorted(old(nodes)@),
        ensures
            final(nodes)@ == with_note_node(old(nodes)@, node),
            r.1 is Some <==> has_note_node(old(nodes)@, node.id),
            r.1 matches Some(o) ==> r.0 < old(nodes)@.len() && o == old(nodes)@[r.0 as int]
                && final(nodes)@ == old(nodes)@.update(r.0 as int, node),
            r.1 is None ==> r.0 <= old(nodes)@.len() && final(nodes)@ == old(nodes)@.insert(
                r.0 as int,
                node,
            ),
    {
        let ghost old_nodes = nodes@;
        let id = node.id;
        let mut i: usize = 0;
        while i < nodes.len() && nodes[i].id.0 < id.0
            invariant
                i <= nodes.len(),
                nodes@ == old_nodes,
                note_nodes_sorted(old_nodes),
                forall|k: int| 0 <= k < i ==> nodes@[k].id.0 < id.0,
            decreases nodes.len() - i,
        {
            i += 1;
        }
        if i < nodes.len() && nodes[i].id == id {
            let o = nodes.remove(i);
            nodes.insert(i, node);
            proof {
                lemma_note_index_unique(old_nodes, i as int);
                assert(nodes@ =~= old_nodes.update(i as int, node));
            }
            return (i, Some(o));
        }
        proof {
            assert forall|k: int| i <= k < old_nodes.len() implies old_nodes[k].id.0 > id.0 by {
                if k > i {
                    assert(old_nodes[i as int].id.0 < old_nodes[k].id.0);
                }
                if old_nodes[k].id.0 == id.0 {
                    assert(old_nodes[k].id == id);
                }
            }
            if has_note_node(old_nodes, id) {
                let k = choose|k: int| 0 <= k < old_nodes.len() && old_nodes[k].id == id;
            }
            lemma_note_insert_pos(old_nodes, id.0, i as int);
        }
        nodes.insert(i, node);
        (i, None)
    }

    /// The smallest unused [`NoteModuleId`] — used by editors to allocate node
    /// ids. Smallest-unused rather than `max + 1`, so a graph holding a
    /// `u32::MAX` node can't saturate into a collision.
    pub fn next_module_id(&self) -> (r: NoteModuleId)
        ensures
            !has_note_node(self.node_seq(), r),
            forall|k: u32| k < r.0 ==> has_note_node(self.node_seq(), NoteModuleId(k)),
    {
        proof {
            use_type_invariant(self);
        }
        let mut candidate: u32 = 0;
        let mut i: usize = 0;
        while i < self.nodes.len()
            invariant
                i <= self.nodes.len(),
                self.nodes.len() <= MAX_NOTE_GRID_NODES,
                note_nodes_sorted(self.nodes@),
                candidate == i,
                forall|k: int| 0 <= k < i ==> self.nodes@[k].id.0 == k,
            decreases self.nodes.len() - i,
        {
            if self.nodes[i].id.0 != candidate {
                proof {
                    assert forall|k: u32| k < candidate implies has_note_node(
                        self.nodes@,
                        NoteModuleId(k),
                    ) by {
                        assert(self.nodes@[k as int].id == NoteModuleId(k));
                    }
                    if has_note_node(self.nodes@, NoteModuleId(candidate)) {
                        let j = choose|j: int|
                            0 <= j < self.nodes@.len() && self.nodes@[j].id == NoteModuleId(candidate);
                        if j < i {
                        } else if j > i {
                            if i > 0 {
                                assert(self.nodes@[i - 1].id.0 < self.nodes@[i as int].id.0);
                            }
                        }
                    }
                }
                return NoteModuleId::new(candidate);
            }
            candidate += 1;
            i += 1;
        }
        proof {
            assert forall|k: u32| k < candidate implies has_note_node(self.nodes@, NoteModuleId(k)) by {
                assert(self.nodes@[k as int].id == NoteModuleId(k));
            }
        }
        NoteModuleId::new(candidate)
    }

    /// The terminal `NoteStream` node — the one that feeds the host
    /// instrument: the last node of the active spine, if any.
    pub fn stream_output_node(&self) -> (r: Option<NoteModuleId>)
        ensures
            r == if self.spine_seq().len() == 0 {
                None
            } else {
                Some(self.spine_seq().last())
            },
    {
        if self.stream_spine.len() == 0 {
            None
        } else {
            Some(self.stream_spine[self.stream_spine.len() - 1])
        }
    }
}

impl<C: Clone> NoteGraph<C> {
    /// A copy of this graph under another id and name: the same description,
    /// colour, connections and derived state, and the same nodes with their
    /// configurations cloned.
    pub fn duplicate(&self, id: NoteGraphId, name: String) -> (g: Self)
        ensures
            g.spec_description() == self.spec_description(),
            g.spec_color() == self.spec_color(),
            g.spec_id() == id,
            g.spec_name() == name@,
            g.conn_seq() == self.conn_seq(),
            g.order_seq() == self.order_seq(),
            g.spine_seq() == self.spine_seq(),
            same_note_shape(g.node_seq(), self.node_seq()),
            forall|i: int| 0 <= i < g.node_seq().len() ==> cloned::<C>(self.node_seq()[i].config, #[trigger] g.node_seq()[i].config),
    {
        proof {
            use_type_invariant(self);
        }
        let mut nodes: Vec<NoteNode<C>> = Vec::new();
        let mut i: usize = 0;
        while i < self.nodes.len()
            invariant
                i <= self.nodes@.len(),
                nodes@.len() == i,
                forall|k: int| 0 <= k < i ==> (#[trigger] nodes@[k]).id == self.nodes@[k].id && nodes@[k].kind == self.nodes@[k].kind
                    && cloned::<C>(self.nodes@[k].config, nodes@[k].config),
            decreases self.nodes@.len() - i,
        {
            let n = &self.nodes[i];
            nodes.push(NoteNode { id: n.id, kind: n.kind, config: n.config.clone() });
            i = i + 1;
        }
        proof {
            assert forall|a: int, b: int| 0 <= a < b < nodes@.len() implies nodes@[a].id.0 < nodes@[b].id.0 by {
                assert(nodes@[a].id == self.nodes@[a].id);
                assert(nodes@[b].id == self.nodes@[b].id);
            }
        }
        NoteGraph {
            id,
            name,
            description: self.description.clone(),
            color: self.color,
            nodes,
            connections: self.connections.clone(),
            processing_order: self.processing_order.clone(),
            stream_spine: self.stream_spine.clone(),
        }
    }
}


// ----------------------------------------------------------------------------
// Per-tick expansion plan
// ----------------------------------------------------------------------------

/// Whether a node of this kind is one of the rack processors (scale-quantize,
/// chord, arpeggiator, humanize), whose pitch view a downstream generator
/// reads.
pub open spec fn kind_is_processor(k: NoteModuleKind) -> bool {
    match k {
        NoteModuleKind::ScaleQuantize(_) | NoteModuleKind::Chord(_) | NoteModuleKind::Arpeggiator
        | NoteModuleKind::Humanize => true,
        _ => false,
    }
}

impl NoteModuleKind {
    /// Whether this kind is one of the rack processors.
    pub fn is_processor(&self) -> (b: bool)
        ensures
            b == kind_is_processor(*self),
    {
        match self {
            NoteModuleKind::ScaleQuantize(_) | NoteModuleKind::Chord(_) | NoteModuleKind::Arpeggiator
            | NoteModuleKind::Humanize => true,
            _ => false,
        }
    }
}

/// The first position of `id` in the spine, or -1.
pub open spec fn spine_pos_upto(spine: Seq<NoteModuleId>, id: NoteModuleId, n: int) -> int
    decreases n,
{
    if n <= 0 {
        -1
    } else {
        let p = spine_pos_upto(spine, id, n - 1);
        if p >= 0 {
            p
        } else if spine[n - 1] == id {
            n - 1
        } else {
            -1
        }
    }
}

/// The processor nodes among the first `p` spine nodes, in spine order.
pub open spec fn processors_before<C>(nodes: Seq<NoteNode<C>>, spine: Seq<NoteModuleId>, p: int) -> Seq<NoteModuleId>
    decreases p,
{
    if p <= 0 {
        Seq::empty()
    } else {
        let prev = processors_before(nodes, spine, p - 1);
        let m = spine[p - 1];
        if has_note_node(nodes, m) && kind_is_processor(kind_of(nodes, m)) {
            prev.push(m)
        } else {
            prev
        }
    }
}

/// What one node contributes to the per-tick expansion, if it runs at all:
/// a value source runs without a spine position; a stream node runs only on
/// the spine, at its spine position; a processor reads its pitches through
/// the processors before it on the spine. Nodes that are not in the graph,
/// and stream nodes off the spine, do not run.
pub open spec fn step_of<C>(nodes: Seq<NoteNode<C>>, spine: Seq<NoteModuleId>, id: NoteModuleId) -> Option<
    (NoteModuleId, Option<int>, Seq<NoteModuleId>),
> {
    if !has_note_node(nodes, id) {
        None
    } else if kind_value_source(kind_of(nodes, id)) {
        Some((id, None, Seq::empty()))
    } else {
        let p = spine_pos_upto(spine, id, spine.len() as int);
        if p < 0 {
            None
        } else if kind_is_processor(kind_of(nodes, id)) {
            Some((id, Some(p), processors_before(nodes, spine, p)))
        } else {
            Some((id, Some(p), Seq::empty()))
        }
    }
}

/// The expansion steps for the first `k` nodes of the evaluation order, and
/// whether the plan has stopped at `tap`.
pub open spec fn steps_upto<C>(
    nodes: Seq<NoteNode<C>>,
    order: Seq<NoteModuleId>,
    spine: Seq<NoteModuleId>,
    tap: Option<NoteModuleId>,
    k: int,
) -> (Seq<(NoteModuleId, Option<int>, Seq<NoteModuleId>)>, bool)
    decreases k,
{
    if k <= 0 {
        (Seq::empty(), false)
    } else {
        let prev = steps_upto(nodes, order, spine, tap, k - 1);
        if prev.1 {
            prev
        } else {
            match step_of(nodes, spine, order[k - 1]) {
                Some(s) => (prev.0.push(s), tap == Some(order[k - 1])),
                None => prev,
            }
        }
    }
}

/// The per-tick expansion plan of a graph: its nodes in evaluation order,
/// each with what `step_of` says of it, stopping after `tap` when it runs.
pub open spec fn spec_expansion_steps<C>(
    nodes: Seq<NoteNode<C>>,
    order: Seq<NoteModuleId>,
    spine: Seq<NoteModuleId>,
    tap: Option<NoteModuleId>,
) -> Seq<(NoteModuleId, Option<int>, Seq<NoteModuleId>)> {
    steps_upto(nodes, order, spine, tap, order.len() as int).0
}

/// One step of the per-tick expansion: the node that runs, its spine
/// position (none for a value source), and the spine processors before it
/// (for a processor node).
#[derive(Debug, Clone)]
pub struct ExpansionStep {
    pub node: NoteModuleId,
    pub spine_pos: Option<usize>,
    pub upstream: Vec<NoteModuleId>,
}

/// A step as (node, spine position, upstream processors).
pub open spec fn step_view(s: ExpansionStep) -> (NoteModuleId, Option<int>, Seq<NoteModuleId>) {
    (
        s.node,
        match s.spine_pos {
            Some(p) => Some(p as int),
            None => None,
        },
        s.upstream@,
    )
}

/// The per-tick expansion plan of `graph`, stopping after `tap` (see
/// [`spec_expansion_steps`]).
pub fn expansion_steps<C>(graph: &NoteGraph<C>, tap: Option<NoteModuleId>) -> (r: Vec<ExpansionStep>)
    ensures
        r@.map_values(|s: ExpansionStep| step_view(s)) == spec_expansion_steps(
            graph.node_seq(),
            graph.order_seq(),
            graph.spine_seq(),
            tap,
        ),
{
    graph.plan(tap)
}

impl<C> NoteGraph<C> {
    fn spine_position(&self, id: NoteModuleId) -> (r: Option<usize>)
        ensures
            match r {
                Some(p) => p as int == spine_pos_upto(self.spine_seq(), id, self.spine_seq().len() as int) && p
                    < self.spine_seq().len(),
                None => spine_pos_upto(self.spine_seq(), id, self.spine_seq().len() as int) == -1,
            },
    {
        let mut i: usize = 0;
        while i < self.stream_spine.len()
            invariant
                i <= self.stream_spine@.len(),
                spine_pos_upto(self.spine_seq(), id, i as int) == -1,
            decreases self.stream_spine@.len() - i,
        {
            if self.stream_spine[i] == id {
                proof {
                    lemma_spine_pos_found(self.spine_seq(), id, i as int, self.spine_seq().len() as int);
                }
                return Some(i);
            }
            i = i + 1;
        }
        None
    }

    fn upstream_processors(&self, p: usize) -> (r: Vec<NoteModuleId>)
        requires
            p <= self.spine_seq().len(),
        ensures
            r@ == processors_before(self.node_seq(), self.spine_seq(), p as int),
    {
        proof {
            use_type_invariant(self);
        }
        let mut out: Vec<NoteModuleId> = Vec::new();
        let mut i: usize = 0;
        while i < p
            invariant
                i <= p,
                p <= self.stream_spine@.len(),
                note_nodes_sorted(self.nodes@),
                out@ == processors_before(self.node_seq(), self.spine_seq(), i as int),
            decreases p - i,
        {
            let m = self.stream_spine[i];
            match find_note_kind(&self.nodes, m) {
                Some(k) => {
                    if k.is_processor() {
                        out.push(m);
                    }
                },
                None => {},
            }
            i = i + 1;
        }
        out
    }

    fn plan(&self, tap: Option<NoteModuleId>) -> (r: Vec<ExpansionStep>)
        ensures
            r@.map_values(|s: ExpansionStep| step_view(s)) == spec_expansion_steps(
                self.node_seq(),
                self.order_seq(),
                self.spine_seq(),
                tap,
            ),
    {
        proof {
            use_type_invariant(self);
        }
        let mut out: Vec<ExpansionStep> = Vec::new();
        let mut k: usize = 0;
        proof {
            assert(out@.map_values(|s: ExpansionStep| step_view(s)) =~= Seq::empty());
        }
        while k < self.processing_order.len()
            invariant_except_break
                k <= self.processing_order@.len(),
                note_nodes_sorted(self.nodes@),
                out@.map_values(|s: ExpansionStep| step_view(s)) == steps_upto(
                    self.node_seq(),
                    self.order_seq(),
                    self.spine_seq(),
                    tap,
                    k as int,
                ).0,
                !steps_upto(self.node_seq(), self.order_seq(), self.spine_seq(), tap, k as int).1,
            ensures
                out@.map_values(|s: ExpansionStep| step_view(s)) == spec_expansion_steps(
                    self.node_seq(),
                    self.order_seq(),
                    self.spine_seq(),
                    tap,
                ),
            decreases self.processing_order@.len() - k,
        {
            let id = self.processing_order[k];
            let ghost before = out@.map_values(|s: ExpansionStep| step_view(s));
            let step: Option<ExpansionStep> = match find_note_kind(&self.nodes, id) {
                None => None,
                Some(kind) => {
                    if kind.is_value_source() {
                        Some(ExpansionStep { node: id, spine_pos: None, upstream: Vec::new() })
                    } else {
                        match self.spine_position(id) {
                            None => None,
                            Some(p) => {
                                let upstream = if kind.is_processor() {
                                    self.upstream_processors(p)
                                } else {
                                    Vec::new()
                                };
                                Some(ExpansionStep { node: id, spine_pos: Some(p), upstream })
                            },
                        }
                    }
                },
            };
            proof {
                assert(step_of(self.node_seq(), self.spine_seq(), id) == match step {
                    Some(s) => Some(step_view(s)),
                    None => None,
                });
            }
            let stop = match step {
                Some(s) => {
                    out.push(s);
                    proof {
                        assert(out@.map_values(|s: ExpansionStep| step_view(s)) =~= before.push(step_view(out@.last())));
                    }
                    match tap {
                        Some(t) => t == id,
                        None => false,
                    }
                },
                None => false,
            };
            k = k + 1;
            if stop {
                proof {
                    lemma_steps_stay_stopped(self.node_seq(), self.order_seq(), self.spine_seq(), tap, k as int,
                        self.order_seq().len() as int);
                }
                break;
            }
        }
        out
    }
}

proof fn lemma_spine_pos_found(spine: Seq<NoteModuleId>, id: NoteModuleId, i: int, n: int)
    requires
        0 <= i < n <= spine.len(),
        spine[i] == id,
        spine_pos_upto(spine, id, i) == -1,
    ensures
        spine_pos_upto(spine, id, n) == i,
    decreases n,
{
    if n > i + 1 {
        lemma_spine_pos_found(spine, id, i, n - 1);
    }
}

proof fn lemma_steps_stay_stopped<C>(
    nodes: Seq<NoteNode<C>>,
    order: Seq<NoteModuleId>,
    spine: Seq<NoteModuleId>,
    tap: Option<NoteModuleId>,
    k: int,
    n: int,
)
    requires
        0 <= k <= n,
        steps_upto(nodes, order, spine, tap, k).1,
    ensures
        steps_upto(nodes, order, spine, tap, n) == steps_upto(nodes, order, spine, tap, k),
    decreases n,
{
    if n > k {
        lemma_steps_stay_stopped(nodes, order, spine, tap, k, n - 1);
    }
}


/// A tap only cuts the per-tick plan short: the plan stopped at node `t` is a
/// prefix of the full plan; it is the whole plan when no step of the full
/// plan runs `t`; and when it is shorter, its last step is `t`'s.
pub proof fn lemma_tapped_plan_is_prefix<C>(
    nodes: Seq<NoteNode<C>>,
    order: Seq<NoteModuleId>,
    spine: Seq<NoteModuleId>,
    t: NoteModuleId,
)
    ensures
        ({
            let full = spec_expansion_steps(nodes, order, spine, None);
            let tapped = spec_expansion_steps(nodes, order, spine, Some(t));
            &&& tapped.len() <= full.len()
            &&& tapped == full.subrange(0, tapped.len() as int)
            &&& (forall|i: int| 0 <= i < full.len() ==> (#[trigger] full[i]).0 != t) ==> tapped == full
            &&& tapped.len() < full.len() ==> tapped.len() > 0 && tapped.last().0 == t
        }),
{
    lemma_tapped_upto(nodes, order, spine, t, order.len() as int);
}

proof fn lemma_tapped_upto<C>(
    nodes: Seq<NoteNode<C>>,
    order: Seq<NoteModuleId>,
    spine: Seq<NoteModuleId>,
    t: NoteModuleId,
    k: int,
)
    ensures
        ({
            let f = steps_upto(nodes, order, spine, None, k);
            let g = steps_upto(nodes, order, spine, Some(t), k);
            &&& !f.1
            &&& g.0.len() <= f.0.len()
            &&& g.0 == f.0.subrange(0, g.0.len() as int)
            &&& !g.1 ==> g.0 == f.0
            &&& g.1 ==> g.0.len() > 0 && g.0.last().0 == t
            &&& g.1 ==> exists|i: int| 0 <= i < f.0.len() && (#[trigger] f.0[i]).0 == t
        }),
    decreases k,
{
    if k > 0 {
        lemma_tapped_upto(nodes, order, spine, t, k - 1);
        let f = steps_upto(nodes, order, spine, None, k - 1);
        let g = steps_upto(nodes, order, spine, Some(t), k - 1);
        let f2 = steps_upto(nodes, order, spine, None, k);
        let g2 = steps_upto(nodes, order, spine, Some(t), k);
        let id = order[k - 1];
        match step_of(nodes, spine, id) {
            Some(s) => {
                assert(s.0 == id);
                assert(f2.0 == f.0.push(s));
                if g.1 {
                    assert(g2 == g);
                    let i = choose|i: int| 0 <= i < f.0.len() && (#[trigger] f.0[i]).0 == t;
                    assert(f2.0[i] == f.0[i]);
                    assert(g2.0 =~= f2.0.subrange(0, g2.0.len() as int));
                } else {
                    assert(g2.0 == f2.0);
                    if g2.1 {
                        assert(f2.0[f.0.len() as int].0 == t);
                    }
                    assert(g2.0 =~= f2.0.subrange(0, g2.0.len() as int));
                }
            },
            None => {
                assert(f2 == f);
                assert(g2 == g);
            },
        }
    } else {
        assert(steps_upto(nodes, order, spine, Some(t), k).0 =~= steps_upto(nodes, order, spine, None, k).0.subrange(0, 0));
    }
}

} // verus!
