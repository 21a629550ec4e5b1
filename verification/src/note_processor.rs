//! Scale, chord and arpeggio primitives of the note-processing layer.
//!
//! The chaining order of the processors is locked:
//! `scale-quantize → chord → arp → ornaments/strum → humanize` (quantize first
//! so everything downstream stays in key).
use vstd::prelude::*;

use crate::pitch::Pitch;
use vstd::slice::slice_subrange;
use crate::time::Duration;

verus! {

/// Hard cap on expanded note events per tick (per pattern/placement).
pub const MAX_EXPANSION_EVENTS_PER_TICK: usize = 128;

/// Hard cap on the hits a single per-note ornament may emit.
pub const MAX_ORNAMENT_HITS: u8 = 64;

/// Longest look-back window (ticks) a timing module may declare — 2 bars at
/// 4/4, 960 PPQ.
pub const MAX_NOTE_DELAY_TICKS: u32 = 7680;

/// Recursion cap for a timing node reading downstream of a transform.
pub const MAX_LOOKBACK_DEPTH: usize = 2;

/// Repeat clamp for a single delay/echo node.
pub const MAX_DELAY_REPEATS: u8 = 16;

/// Subdivision clamp for a single ratchet node.
pub const MAX_RATCHET_SUBDIVISIONS: u8 = 16;

/// Look-back window for a stream-onset envelope's backward scan (1 beat).
pub const MAX_ENV_STREAM_WINDOW: u32 = 960;

/// Most tones a chord generator emits per source note.
pub const MAX_CHORD_INTERVALS: usize = 8;

/// Most semitone offsets a custom arpeggio cycle holds.
pub const MAX_ARP_OFFSETS: usize = 16;

/// Most held notes the arpeggiator reads per tick.
pub const MAX_ARP_HELD: usize = 16;

// ============================================================================
// Scale primitives
// ============================================================================

/// A pitch class (0–11, C = 0). The constructor wraps modulo 12.
#[derive(Debug, Clone, Copy, PartialEq, Eq, Structural)]
pub struct PitchClass(u8);

impl View for PitchClass {
    type V = u8;

    /// The stored value (normally already below 12).
    closed spec fn view(&self) -> u8 {
        self.0
    }
}

impl PitchClass {
    /// Create a pitch class; values ≥ 12 wrap modulo 12.
    pub fn new(class: u8) -> (r: Self)
        ensures
            r@ == class % 12,
    {
        PitchClass(class % 12)
    }

    /// The class as 0–11 (the single normalization point: a raw stored value
    /// is reduced modulo 12 here).
    pub fn as_u8(self) -> (r: u8)
        ensures
            r == self@ % 12,
    {
        self.0 % 12
    }
}

impl Default for PitchClass {
    fn default() -> (r: Self)
        ensures
            r@ == 0,
    {
        PitchClass(0)
    }
}

/// Whether bit `c` of `mask` is set.
pub open spec fn mask_has(mask: u16, c: int) -> bool {
    0 <= c < 16 && (mask >> (c as u16)) & 1u16 == 1u16
}

/// A 12-bit pitch-class set relative to a root (bit 0 = the root itself).
#[derive(Debug, Clone, Copy, PartialEq, Eq, Structural)]
pub struct ScaleMask(u16);

impl View for ScaleMask {
    type V = u16;

    closed spec fn view(&self) -> u16 {
        self.0
    }
}

proof fn lemma_set_bit(mask: u16, b: u16, c: u16)
    requires
        b < 12,
        c < 16,
    ensures
        ((mask | (1u16 << b)) >> c) & 1u16 == 1u16 <==> ((mask >> c) & 1u16 == 1u16 || c == b),
{
    assert(((mask | (1u16 << b)) >> c) & 1u16 == 1u16 <==> ((mask >> c) & 1u16 == 1u16 || c == b))
        by (bit_vector)
        requires
            b < 12,
            c < 16,
    ;
}

proof fn lemma_bit_test(mask: u16, b: u16)
    requires
        b < 12,
    ensures
        (mask & (1u16 << b) != 0u16) <==> ((mask >> b) & 1u16 == 1u16),
{
    assert((mask & (1u16 << b) != 0u16) <==> ((mask >> b) & 1u16 == 1u16)) by (bit_vector)
        requires
            b < 12,
    ;
}

proof fn lemma_low_bits_empty(mask: u16)
    ensures
        (mask & 0x0FFFu16 == 0u16) <==> (forall|c: u16| c < 12 ==> #[trigger] ((mask >> c) & 1u16) != 1u16),
{
    assert((mask & 0x0FFFu16 == 0u16) <==> (
        (mask >> 0u16) & 1u16 != 1u16 && (mask >> 1u16) & 1u16 != 1u16 && (mask >> 2u16) & 1u16 != 1u16
        && (mask >> 3u16) & 1u16 != 1u16 && (mask >> 4u16) & 1u16 != 1u16 && (mask >> 5u16) & 1u16 != 1u16
        && (mask >> 6u16) & 1u16 != 1u16 && (mask >> 7u16) & 1u16 != 1u16 && (mask >> 8u16) & 1u16 != 1u16
        && (mask >> 9u16) & 1u16 != 1u16 && (mask >> 10u16) & 1u16 != 1u16 && (mask >> 11u16) & 1u16 != 1u16))
        by (bit_vector);
    if mask & 0x0FFFu16 == 0u16 {
        assert forall|c: u16| c < 12 implies #[trigger] ((mask >> c) & 1u16) != 1u16 by {
            if c == 0 {} else if c == 1 {} else if c == 2 {} else if c == 3 {} else if c == 4 {}
            else if c == 5 {} else if c == 6 {} else if c == 7 {} else if c == 8 {} else if c == 9 {}
            else if c == 10 {} else {}
        }
    }
    if forall|c: u16| c < 12 ==> #[trigger] ((mask >> c) & 1u16) != 1u16 {
        assert((mask >> 0u16) & 1u16 != 1u16);
        assert((mask >> 1u16) & 1u16 != 1u16);
        assert((mask >> 2u16) & 1u16 != 1u16);
        assert((mask >> 3u16) & 1u16 != 1u16);
        assert((mask >> 4u16) & 1u16 != 1u16);
        assert((mask >> 5u16) & 1u16 != 1u16);
        assert((mask >> 6u16) & 1u16 != 1u16);
        assert((mask >> 7u16) & 1u16 != 1u16);
        assert((mask >> 8u16) & 1u16 != 1u16);
        assert((mask >> 9u16) & 1u16 != 1u16);
        assert((mask >> 10u16) & 1u16 != 1u16);
        assert((mask >> 11u16) & 1u16 != 1u16);
    }
}

impl ScaleMask {
    /// Build a mask from semitone intervals above the root (values wrap mod 12).
    pub fn from_intervals(intervals: &[u8]) -> (r: Self)
        ensures
            forall|c: int|
                0 <= c < 16 ==> (mask_has(r@, c) <==> (exists|j: int|
                    0 <= j < intervals@.len() && #[trigger] (intervals@[j] % 12) == c)),
    {
        let mut mask: u16 = 0;
        let mut i: usize = 0;
        proof {
            assert forall|c: u16| c < 16 implies (0u16 >> c) & 1u16 != 1u16 by {
                assert((0u16 >> c) & 1u16 != 1u16) by (bit_vector)
                    requires
                        c < 16,
                ;
            }
        }
        while i < intervals.len()
            invariant
                i <= intervals@.len(),
                forall|c: int|
                    0 <= c < 16 ==> (mask_has(mask, c) <==> (exists|j: int|
                        0 <= j < i && #[trigger] (intervals@[j] % 12) == c)),
            decreases intervals@.len() - i,
        {
            let b: u16 = (intervals[i] % 12) as u16;
            let ghost old_mask = mask;
            mask = mask | (1u16 << b);
            proof {
                assert forall|c: int|
                    0 <= c < 16 implies (mask_has(mask, c) <==> (exists|j: int|
                        0 <= j < i + 1 && #[trigger] (intervals@[j] % 12) == c)) by {
                    lemma_set_bit(old_mask, b, c as u16);
                    let old_has = exists|j: int| 0 <= j < i && #[trigger] (intervals@[j] % 12) == c;
                    assert(mask_has(old_mask, c) == old_has);
                    if mask_has(mask, c) {
                        if c == b as int {
                            assert(intervals@[i as int] % 12 == c);
                        } else {
                            assert(old_has);
                            let j = choose|j: int| 0 <= j < i && #[trigger] (intervals@[j] % 12) == c;
                            assert(0 <= j < i + 1 && intervals@[j] % 12 == c);
                        }
                    }
                    if exists|j: int| 0 <= j < i + 1 && #[trigger] (intervals@[j] % 12) == c {
                        let j = choose|j: int| 0 <= j < i + 1 && #[trigger] (intervals@[j] % 12) == c;
                        if j < i {
                            assert(old_has);
                        } else {
                            assert(c == b as int);
                        }
                    }
                }
            }
            i = i + 1;
        }
        ScaleMask(mask)
    }

    /// All 12 pitch classes (quantize becomes a no-op).
    pub fn chromatic() -> (r: Self)
        ensures
            r@ == 0x0FFF,
    {
        ScaleMask(0x0FFF)
    }

    /// Major (ionian): 0 2 4 5 7 9 11.
    pub fn major() -> (r: Self)
        ensures
            r@ == 0b1010_1011_0101,
    {
        ScaleMask(0b1010_1011_0101)
    }

    /// Natural minor (aeolian): 0 2 3 5 7 8 10.
    pub fn natural_minor() -> (r: Self)
        ensures
            r@ == 0b0101_1010_1101,
    {
        ScaleMask(0b0101_1010_1101)
    }

    /// Harmonic minor: 0 2 3 5 7 8 11.
    pub fn harmonic_minor() -> (r: Self)
        ensures
            r@ == 0b1001_1010_1101,
    {
        ScaleMask(0b1001_1010_1101)
    }

    /// Major pentatonic: 0 2 4 7 9.
    pub fn pentatonic_major() -> (r: Self)
        ensures
            r@ == 0b0010_1001_0101,
    {
        ScaleMask(0b0010_1001_0101)
    }

    /// Minor pentatonic: 0 3 5 7 10.
    pub fn pentatonic_minor() -> (r: Self)
        ensures
            r@ == 0b0100_1010_1001,
    {
        ScaleMask(0b0100_1010_1001)
    }

    /// Whether the interval-class above the root (0–11) is in the set.
    pub fn contains_interval(self, interval: u8) -> (r: bool)
        ensures
            r == mask_has(self@, (interval % 12) as int),
    {
        let b: u16 = (interval % 12) as u16;
        proof {
            lemma_bit_test(self.0, b);
        }
        self.0 & (1u16 << b) != 0
    }

    /// True when no pitch class is set (the degenerate mask; quantize treats
    /// it as a no-op).
    pub fn is_empty(self) -> (r: bool)
        ensures
            r == (forall|c: int| 0 <= c < 12 ==> !#[trigger] mask_has(self@, c)),
    {
        proof {
            lemma_low_bits_empty(self.0);
            if forall|c: u16| c < 12 ==> #[trigger] ((self.0 >> c) & 1u16) != 1u16 {
                assert forall|c: int| 0 <= c < 12 implies !#[trigger] mask_has(self@, c) by {
                    assert(((self.0 >> (c as u16)) & 1u16) != 1u16);
                }
            }
            if forall|c: int| 0 <= c < 12 ==> !#[trigger] mask_has(self@, c) {
                assert forall|c: u16| c < 12 implies #[trigger] ((self.0 >> c) & 1u16) != 1u16 by {
                    assert(!mask_has(self@, c as int));
                }
            }
        }
        self.0 & 0x0FFF == 0
    }
}

impl Default for ScaleMask {
    fn default() -> (r: Self)
        ensures
            r@ == 0b1010_1011_0101,
    {
        ScaleMask::major()
    }
}

// ============================================================================
// Scale quantize
// ============================================================================

/// Scale-quantize: snap every pitch to the nearest member of `root` + `mask`.
///
/// First stage of the locked chain so notes from downstream generators stay
/// in key. Equidistant candidates prefer the upper pitch.
#[derive(Debug, Clone, Copy, PartialEq, Eq, Structural)]
pub struct ScaleQuantize {
    /// Tonic pitch class.
    pub root: PitchClass,
    /// Scale membership relative to the root.
    pub mask: ScaleMask,
}

/// Whether MIDI number `m` lies in the scale of `q`.
pub open spec fn in_scale(q: ScaleQuantize, m: int) -> bool {
    mask_has(q.mask@, (m + 12 - (q.root@ % 12)) % 12)
}

/// Whether `m` is a valid MIDI pitch in the scale of `q`.
pub open spec fn snap_ok(q: ScaleQuantize, m: int) -> bool {
    0 <= m <= 127 && in_scale(q, m)
}

/// Whether a valid in-scale pitch lies exactly `d` semitones from `p`.
pub open spec fn near_ok(q: ScaleQuantize, p: int, d: int) -> bool {
    snap_ok(q, p + d) || snap_ok(q, p - d)
}

/// Whether the scale of `q` has no pitch class at all.
pub open spec fn scale_is_empty(q: ScaleQuantize) -> bool {
    forall|c: int| 0 <= c < 12 ==> !#[trigger] mask_has(q.mask@, c)
}

/// The result of snapping MIDI pitch `p` into the scale of `q`: `p` itself
/// when the scale is empty or `p` is already in it; otherwise the nearest
/// in-scale pitch at most 6 semitones away (the upper one on a tie); `p`
/// again when no such pitch lies inside the MIDI range.
pub open spec fn is_snap_of(q: ScaleQuantize, p: int, r: int) -> bool {
    if scale_is_empty(q) || in_scale(q, p) {
        r == p
    } else if exists|d: int| 1 <= d <= 6 && #[trigger] near_ok(q, p, d) {
        let d = if r >= p { r - p } else { p - r };
        &&& 1 <= d <= 6
        &&& snap_ok(q, r)
        &&& forall|e: int| 1 <= e < d ==> !#[trigger] near_ok(q, p, e)
        &&& r < p ==> !snap_ok(q, p + d)
    } else {
        r == p
    }
}

/// The first in-scale MIDI pitch found searching outward from `p`, trying
/// `p + d` before `p - d` for each distance `d` from `from` up to 6; `p` when
/// none is found.
pub open spec fn snap_search(q: ScaleQuantize, p: int, from: int) -> int
    decreases 7 - from,
{
    if from > 6 || from < 1 {
        p
    } else if snap_ok(q, p + from) {
        p + from
    } else if snap_ok(q, p - from) {
        p - from
    } else {
        snap_search(q, p, from + 1)
    }
}

/// The pitch `p` snaps to under `q`, as a function: `p` itself when the scale
/// is empty or already holds `p`, else the outward search from distance 1.
pub open spec fn snap_pitch(q: ScaleQuantize, p: int) -> int {
    if scale_is_empty(q) || in_scale(q, p) {
        p
    } else {
        snap_search(q, p, 1)
    }
}

impl ScaleQuantize {
    /// Whether `pitch` is in the scale.
    pub fn contains(&self, pitch: Pitch) -> (r: bool)
        ensures
            r == in_scale(*self, pitch@ as int),
    {
        let m = pitch.as_midi() as u16;
        let root = self.root.as_u8() as u16;
        let interval = (m + 12 - root) % 12;
        self.mask.contains_interval(interval as u8)
    }

    /// Snap `pitch` to the nearest in-scale pitch, searching ±6 semitones (a
    /// non-empty scale has a member within a tritone). Ties prefer the upper
    /// pitch. Empty masks and unreachable edges return `pitch`.
    pub fn snap(&self, pitch: Pitch) -> (r: Pitch)
        ensures
            is_snap_of(*self, pitch@ as int, r@ as int),
            r@ == snap_pitch(*self, pitch@ as int),
    {
        if self.mask.is_empty() || self.contains(pitch) {
            return pitch;
        }
        let midi: i16 = pitch.as_midi() as i16;
        let mut delta: i16 = 1;
        while delta <= 6
            invariant
                1 <= delta <= 7,
                midi == pitch@,
                0 <= midi <= 127,
                !scale_is_empty(*self),
                !in_scale(*self, midi as int),
                forall|e: int| 1 <= e < delta ==> !#[trigger] near_ok(*self, midi as int, e),
                snap_pitch(*self, midi as int) == snap_search(*self, midi as int, delta as int),
            decreases 7 - delta,
        {
            let up = midi + delta;
            if up <= 127 {
                let p = Pitch::new(up as u8).unwrap();
                if self.contains(p) {
                    assert(near_ok(*self, midi as int, delta as int));
                    return p;
                }
            }
            let down = midi - delta;
            if down >= 0 {
                let p = Pitch::new(down as u8).unwrap();
                if self.contains(p) {
                    assert(near_ok(*self, midi as int, delta as int));
                    return p;
                }
            }
            assert(!near_ok(*self, midi as int, delta as int));
            delta = delta + 1;
        }
        pitch
    }
}

impl Default for ScaleQuantize {
    fn default() -> (r: Self)
        ensures
            r.root@ == 0,
            r.mask@ == 0b1010_1011_0101,
    {
        ScaleQuantize { root: PitchClass::default(), mask: ScaleMask::default() }
    }
}

/// Snapping is idempotent: a snapped pitch snaps to itself.
pub proof fn lemma_snap_idempotent(q: ScaleQuantize, p: int, r: int, r2: int)
    requires
        0 <= p <= 127,
        is_snap_of(q, p, r),
        is_snap_of(q, r, r2),
    ensures
        r2 == r,
{
    if scale_is_empty(q) || in_scale(q, p) {
    } else if exists|d: int| 1 <= d <= 6 && #[trigger] near_ok(q, p, d) {
        assert(in_scale(q, r));
    } else {
        assert(r == p);
    }
}

/// Stepping from `a` by `s` semitones, where `s` is the upward distance from
/// the class of `a` to class `c` (or that minus an octave), lands on class `c`.
proof fn lemma_step_to_class(a: int, c: int, s: int)
    requires
        0 <= a,
        0 <= c < 12,
        s == (if c >= a % 12 { c - a % 12 } else { c - a % 12 + 12 }) || s == (if c >= a % 12 {
            c - a % 12
        } else {
            c - a % 12 + 12
        }) - 12,
        a + s >= 0,
    ensures
        (a + s) % 12 == c,
{
    let q = a / 12;
    let i = a % 12;
    vstd::arithmetic::div_mod::lemma_fundamental_div_mod(a, 12);
    assert(a == 12 * q + i);
    if c >= i {
        if s == c - i {
            vstd::arithmetic::div_mod::lemma_fundamental_div_mod_converse(a + s, 12, q, c);
        } else {
            vstd::arithmetic::div_mod::lemma_fundamental_div_mod_converse(a + s, 12, q - 1, c);
        }
    } else {
        if s == c - i + 12 {
            vstd::arithmetic::div_mod::lemma_fundamental_div_mod_converse(a + s, 12, q + 1, c);
        } else {
            vstd::arithmetic::div_mod::lemma_fundamental_div_mod_converse(a + s, 12, q, c);
        }
    }
}

/// With a non-empty scale, a pitch at least a tritone away from both ends of
/// the MIDI range always snaps into the scale.
pub proof fn lemma_snap_lands_in_scale(q: ScaleQuantize, p: int, r: int)
    requires
        !scale_is_empty(q),
        6 <= p <= 121,
        is_snap_of(q, p, r),
    ensures
        in_scale(q, r),
{
    if in_scale(q, p) {
        return;
    }
    let root = q.root@ % 12;
    let c = choose|c: int| 0 <= c < 12 && #[trigger] mask_has(q.mask@, c);
    let a = p + 12 - root;
    let i = a % 12;
    assert(0 <= i < 12);
    let up = if c >= i {
        c - i
    } else {
        c - i + 12
    };
    assert(up != 0) by {
        if up == 0 {
            assert(c == i);
            assert(mask_has(q.mask@, (p + 12 - root) % 12));
        }
    }
    if up <= 6 {
        lemma_step_to_class(a, c, up);
        assert(p + up + 12 - root == a + up);
        assert(in_scale(q, p + up));
        assert(snap_ok(q, p + up));
        assert(near_ok(q, p, up));
    } else {
        let down = 12 - up;
        lemma_step_to_class(a, c, up - 12);
        assert(p - down + 12 - root == a + (up - 12));
        assert(in_scale(q, p - down));
        assert(snap_ok(q, p - down));
        assert(near_ok(q, p, down));
    }
}

// ============================================================================
// Chord
// ============================================================================

/// Order in which a strummed chord's tones are struck.
#[derive(Debug, Clone, Copy, PartialEq, Eq, Structural)]
pub enum StrumDirection {
    /// Lowest pitch first (an upstroke).
    Up,
    /// Highest pitch first (a downstroke).
    Down,
}

impl Default for StrumDirection {
    fn default() -> (r: Self)
        ensures
            r == StrumDirection::Up,
    {
        StrumDirection::Up
    }
}

/// Chord generator (chain stage 1) — expand one source note into a chord.
///
/// Each source-note onset is replaced by the pitches at the source pitch plus
/// each stored interval (semitones; `0` keeps the root, negatives voice below
/// it). Intervals are stored inline and capped at [`MAX_CHORD_INTERVALS`].
/// With `strum > 0` the tones are struck one at a time, `strum` ticks apart,
/// ordered by `direction` (a block chord at `strum = 0`).
#[derive(Debug, Clone, Copy, PartialEq, Eq)]
pub struct Chord {
    /// Semitone offsets from the source pitch; only the first `count` are live.
    intervals: [i8; 8],
    /// Number of live intervals (clamped to [`MAX_CHORD_INTERVALS`] on read).
    count: u8,
    /// Onset spread between adjacent tones (`0` = a simultaneous block chord).
    strum: Duration,
    /// Tone order when strumming.
    direction: StrumDirection,
}

/// `a` or `b`, whichever is smaller.
pub open spec fn min_int(a: int, b: int) -> int {
    if a <= b { a } else { b }
}

impl View for Chord {
    type V = Seq<i8>;

    /// The live intervals.
    closed spec fn view(&self) -> Seq<i8> {
        self.intervals@.subrange(0, min_int(self.count as int, 8))
    }
}

impl Chord {
    /// Onset spread between adjacent tones.
    pub closed spec fn spec_strum(&self) -> Duration {
        self.strum
    }

    /// Tone order when strumming.
    pub closed spec fn spec_direction(&self) -> StrumDirection {
        self.direction
    }

    /// Build a chord from semitone intervals above (or below) the source
    /// pitch. Excess beyond [`MAX_CHORD_INTERVALS`] is dropped. An empty set
    /// silences the source note (no tones).
    pub fn new(intervals: &[i8]) -> (r: Self)
        ensures
            r@ == intervals@.subrange(0, min_int(intervals@.len() as int, 8)),
            r.spec_strum().0 == 0,
            r.spec_direction() == StrumDirection::Up,
    {
        let mut stored: [i8; 8] = [0i8; 8];
        let count: usize = if intervals.len() < MAX_CHORD_INTERVALS { intervals.len() } else { MAX_CHORD_INTERVALS };
        let mut i: usize = 0;
        while i < count
            invariant
                count <= 8,
                count <= intervals@.len(),
                i <= count,
                stored@.len() == 8,
                forall|j: int| 0 <= j < i ==> stored@[j] == intervals@[j],
            decreases count - i,
        {
            stored[i] = intervals[i];
            i = i + 1;
        }
        let r = Chord { intervals: stored, count: count as u8, strum: Duration(0), direction: StrumDirection::Up };
        assert(r@ =~= intervals@.subrange(0, min_int(intervals@.len() as int, 8)));
        r
    }

    /// Strum the chord: tones struck `spread` ticks apart in `direction`
    /// (builder). `spread = 0` restores a block chord.
    pub fn with_strum(self, spread: Duration, direction: StrumDirection) -> (r: Self)
        ensures
            r@ == self@,
            r.spec_strum() == spread,
            r.spec_direction() == direction,
    {
        Chord { strum: spread, direction, ..self }
    }

    /// Tick span from the first strummed tone to the last (`0` for a block
    /// chord), saturating at `u32::MAX`.
    pub fn strum_tail(&self) -> (r: u32)
        ensures
            r == min_int(
                (if self@.len() > 0 { self@.len() - 1 } else { 0 }) * self.spec_strum().0,
                u32::MAX as int,
            ),
    {
        let live = self.intervals().len() as u32;
        let steps = live.saturating_sub(1);
        assert(steps as u64 * self.strum.0 as u64 <= 0xffff_ffff_u64 * 0xffff_ffff_u64) by (nonlinear_arith)
            requires steps <= 0xffff_ffff_u32, self.strum.0 <= 0xffff_ffff_u32;
        let wide: u64 = steps as u64 * self.strum.0 as u64;
        if wide > u32::MAX as u64 {
            u32::MAX
        } else {
            wide as u32
        }
    }

    /// Major triad (root, +4, +7).
    pub fn major() -> (r: Self)
        ensures
            r@ == seq![0i8, 4, 7],
            r.spec_strum().0 == 0,
            r.spec_direction() == StrumDirection::Up,
    {
        let a: [i8; 3] = [0, 4, 7];
        let r = Chord::new(a.as_slice());
        assert(r@ =~= seq![0i8, 4, 7]);
        r
    }

    /// Minor triad (root, +3, +7).
    pub fn minor() -> (r: Self)
        ensures
            r@ == seq![0i8, 3, 7],
            r.spec_strum().0 == 0,
            r.spec_direction() == StrumDirection::Up,
    {
        let a: [i8; 3] = [0, 3, 7];
        let r = Chord::new(a.as_slice());
        assert(r@ =~= seq![0i8, 3, 7]);
        r
    }

    /// Dominant 7th (root, +4, +7, +10).
    pub fn dominant7() -> (r: Self)
        ensures
            r@ == seq![0i8, 4, 7, 10],
            r.spec_strum().0 == 0,
            r.spec_direction() == StrumDirection::Up,
    {
        let a: [i8; 4] = [0, 4, 7, 10];
        let r = Chord::new(a.as_slice());
        assert(r@ =~= seq![0i8, 4, 7, 10]);
        r
    }

    /// The live intervals (`count` is clamped here, so a stored count above
    /// the cap cannot read past the array).
    pub fn intervals(&self) -> (r: &[i8])
        ensures
            r@ == self@,
            r@.len() <= 8,
    {
        let n: usize = if (self.count as usize) < MAX_CHORD_INTERVALS { self.count as usize } else { MAX_CHORD_INTERVALS };
        slice_subrange(self.intervals.as_slice(), 0, n)
    }

    /// Onset spread between adjacent tones (`0` = a simultaneous block chord).
    pub fn strum(&self) -> (r: Duration)
        ensures
            r == self.spec_strum(),
    {
        self.strum
    }

    /// Tone order when strumming.
    pub fn direction(&self) -> (r: StrumDirection)
        ensures
            r == self.spec_direction(),
    {
        self.direction
    }

    /// This chord's pitches for `root`, in interval order; tones transposed
    /// off the MIDI range are skipped.
    pub fn tones(&self, root: Pitch) -> (r: Vec<Pitch>)
        ensures
            r@.map_values(|p: Pitch| p@ as int) == chord_tones(self@, root@ as int),
    {
        let ivs = self.intervals();
        let mut out: Vec<Pitch> = Vec::new();
        let mut i: usize = 0;
        while i < ivs.len()
            invariant
                i <= ivs@.len(),
                ivs@ == self@,
                out@.map_values(|p: Pitch| p@ as int) == chord_tones(ivs@.subrange(0, i as int), root@ as int),
            decreases ivs@.len() - i,
        {
            let ghost prev = out@;
            assert(ivs@.subrange(0, i + 1).drop_last() == ivs@.subrange(0, i as int));
            match root.transpose(ivs[i] as i32) {
                Some(p) => {
                    out.push(p);
                    assert(out@.map_values(|p: Pitch| p@ as int) =~= prev.map_values(|p: Pitch| p@ as int).push(p@ as int));
                },
                None => {},
            }
            i = i + 1;
        }
        assert(ivs@.subrange(0, ivs@.len() as int) == ivs@);
        out
    }
}

/// The chord tones of `root` under `intervals`: each `root + interval` that
/// is a valid MIDI pitch, in interval order.
pub open spec fn chord_tones(intervals: Seq<i8>, root: int) -> Seq<int>
    decreases intervals.len(),
{
    if intervals.len() == 0 {
        Seq::empty()
    } else {
        let prev = chord_tones(intervals.drop_last(), root);
        let m = root + intervals.last();
        if 0 <= m <= 127 { prev.push(m) } else { prev }
    }
}

impl Default for Chord {
    fn default() -> (r: Self)
        ensures
            r@ == seq![0i8, 4, 7],
    {
        Chord::major()
    }
}

// ============================================================================
// Arpeggiator configuration
// ============================================================================

/// Arpeggiator step order over the held chord.
#[derive(Debug, Clone, Copy, PartialEq, Eq, Structural)]
pub enum ArpMode {
    /// Ascending pitch order.
    Up,
    /// Descending pitch order.
    Down,
    /// Ascending then descending, endpoints not repeated.
    UpDown,
    /// Descending then ascending, endpoints not repeated.
    DownUp,
    /// In the order the source notes start (scan order).
    AsPlayed,
    /// Deterministic pseudo-random member per step.
    Random,
    /// The whole chord re-triggered every step.
    Chord,
    /// A fixed offset loop applied to the single source note's own pitch.
    Custom,
}

impl Default for ArpMode {
    fn default() -> (r: Self)
        ensures
            r == ArpMode::Up,
    {
        ArpMode::Up
    }
}

/// Tempo-synced arpeggiator rate, as a division of the 960-PPQN grid.
#[derive(Debug, Clone, Copy, PartialEq, Eq, Structural)]
pub enum ArpRate {
    /// 1/4 note (960 ticks).
    Quarter,
    /// Dotted 1/4 (1440 ticks).
    QuarterDotted,
    /// 1/4 triplet (640 ticks).
    QuarterTriplet,
    /// 1/8 note (480 ticks).
    Eighth,
    /// Dotted 1/8 (720 ticks).
    EighthDotted,
    /// 1/8 triplet (320 ticks).
    EighthTriplet,
    /// 1/16 note (240 ticks).
    Sixteenth,
    /// Dotted 1/16 (360 ticks).
    SixteenthDotted,
    /// 1/16 triplet (160 ticks).
    SixteenthTriplet,
    /// 1/32 note (120 ticks).
    ThirtySecond,
    /// Dotted 1/32 (180 ticks).
    ThirtySecondDotted,
    /// 1/32 triplet (80 ticks).
    ThirtySecondTriplet,
    /// Exact step length in ticks (sub-grid). Clamped to ≥1.
    Ticks(u32),
    /// Tempo-independent step rate in millihertz.
    MilliHz(u32),
}

impl Default for ArpRate {
    fn default() -> (r: Self)
        ensures
            r == ArpRate::Sixteenth,
    {
        ArpRate::Sixteenth
    }
}

/// Bounded, inline list of semitone offsets for a custom arpeggio, relative
/// to the source note's pitch (offset 0 = the note).
#[derive(Debug, Clone, Copy, PartialEq, Eq)]
pub struct ArpOffsets {
    /// Offset storage; only the first `len` entries are live.
    pub values: [i8; 16],
    /// Number of live offsets (≤ [`MAX_ARP_OFFSETS`]).
    pub len: u8,
}

impl ArpOffsets {
    /// Build from a slice, truncating past [`MAX_ARP_OFFSETS`].
    pub fn new(slice: &[i8]) -> (r: Self)
        ensures
            r.len == min_int(slice@.len() as int, 16),
            r.values@.subrange(0, r.len as int) == slice@.subrange(0, r.len as int),
            forall|i: int| r.len <= i < 16 ==> r.values@[i] == 0,
    {
        let mut values: [i8; 16] = [0i8; 16];
        let len: usize = if slice.len() < MAX_ARP_OFFSETS { slice.len() } else { MAX_ARP_OFFSETS };
        let mut i: usize = 0;
        while i < len
            invariant
                len <= 16,
                len <= slice@.len(),
                i <= len,
                values@.len() == 16,
                forall|j: int| 0 <= j < i ==> values@[j] == slice@[j],
                forall|j: int| len <= j < 16 ==> values@[j] == 0,
            decreases len - i,
        {
            values[i] = slice[i];
            i = i + 1;
        }
        let r = ArpOffsets { values, len: len as u8 };
        assert(r.values@.subrange(0, r.len as int) =~= slice@.subrange(0, r.len as int));
        r
    }

    /// The live offsets.
    pub fn as_slice(&self) -> (r: &[i8])
        requires
            self.len <= 16,
        ensures
            r@ == self.values@.subrange(0, self.len as int),
    {
        slice_subrange(self.values.as_slice(), 0, self.len as usize)
    }

    /// Number of live offsets.
    pub fn len(&self) -> (r: usize)
        ensures
            r == self.len,
    {
        self.len as usize
    }

    /// Whether the cycle is empty (a custom arp with no offsets emits nothing).
    pub fn is_empty(&self) -> (r: bool)
        ensures
            r == (self.len == 0),
    {
        self.len == 0
    }
}

impl Default for ArpOffsets {
    fn default() -> (r: Self)
        ensures
            r.len == 0,
            forall|i: int| 0 <= i < 16 ==> r.values@[i] == 0,
    {
        ArpOffsets { values: [0i8; 16], len: 0 }
    }
}

/// How the arpeggiator assigns step velocities.
#[derive(Debug, Clone, Copy, PartialEq, Eq, Structural)]
pub enum ArpVelocity {
    /// Each step uses its source note's velocity.
    AsPlayed,
    /// Crescendo across each cycle.
    RampUp,
    /// Decrescendo across each cycle.
    RampDown,
}

impl Default for ArpVelocity {
    fn default() -> (r: Self)
        ensures
            r == ArpVelocity::AsPlayed,
    {
        ArpVelocity::AsPlayed
    }
}


/// Where a processor of chain stage `stage` goes in a rack whose stages
/// are `stages` (in rack order): after the leading run of stages at or
/// below it, so same-stage processors keep their insertion order.
pub fn chain_insert_point(stages: &[u8], stage: u8) -> (r: usize)
    ensures
        r <= stages@.len(),
        forall|i: int| 0 <= i < r ==> stages@[i] <= stage,
        r < stages@.len() ==> stages@[r as int] > stage,
{
    let mut i: usize = 0;
    while i < stages.len()
        invariant
            i <= stages@.len(),
            forall|k: int| 0 <= k < i ==> stages@[k] <= stage,
        decreases stages@.len() - i,
    {
        if stages[i] > stage {
            return i;
        }
        i = i + 1;
    }
    i
}

} // verus!
