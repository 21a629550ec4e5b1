//! The source-reading generators — the arpeggiator and the strummed chord —
//! and the held-notes view they play from.
//!
//! A downstream generator (the arpeggiator, a strummed chord) does not read
//! the note stream of the tick it runs on: it scans the source notes and views
//! each one *through* the upstream pitch transforms. A scale-quantize snaps
//! the pitch, a chord turns one pitch into its tones (the 1→N seam), anything
//! else passes the pitch on. Every stage's fan-out is capped at
//! [`MAX_ARP_HELD`] pitches.
//!
//! The arpeggiator itself is stateless: which chord it plays, whether a tick
//! is a step onset, and which member sounds on that step are all pure
//! functions of the configuration, the source notes and the tick. The step
//! gate and swing, which are fractions, reach these functions already
//! resolved to tick counts.
use vstd::prelude::*;

use crate::note::{plays_at, note_end, Note};
use crate::note_processor::{
    chord_tones, snap_pitch, ArpMode, ArpOffsets, ArpRate, Chord, ScaleQuantize, MAX_ARP_HELD,
};
use crate::pitch::{Pitch, Velocity};
use crate::time::{Duration, PatternTick};

verus! {

// ----------------------------------------------------------------------------
// Sequence helpers
// ----------------------------------------------------------------------------

/// The MIDI numbers of a pitch sequence.
pub open spec fn midi_of(ps: Seq<Pitch>) -> Seq<int> {
    ps.map_values(|p: Pitch| p@ as int)
}

/// `s` cut down to its first `n` entries when it is longer.
pub open spec fn cap<A>(s: Seq<A>, n: int) -> Seq<A> {
    if s.len() <= n {
        s
    } else {
        s.take(n)
    }
}

/// Appending to a capped sequence: the capped result grows by `x` exactly
/// while there is room.
proof fn lemma_cap_push<A>(s: Seq<A>, x: A, n: int)
    requires
        0 <= n,
    ensures
        cap(s.push(x), n) == (if cap(s, n).len() < n {
            cap(s, n).push(x)
        } else {
            cap(s, n)
        }),
{
    if s.len() < n {
        assert(cap(s.push(x), n) =~= s.push(x));
    } else {
        assert(cap(s.push(x), n) =~= s.take(n));
    }
}

// ----------------------------------------------------------------------------
// The held-pitch view
// ----------------------------------------------------------------------------

/// How one upstream stage contributes a pitch to a downstream generator's
/// held view.
#[derive(Debug, Clone, Copy, PartialEq, Eq)]
pub enum HeldStage {
    /// A scale-quantize: the pitch snaps into the scale.
    Quantize(ScaleQuantize),
    /// A chord generator: the pitch becomes the chord's tones.
    Chord(Chord),
    /// Any other processor: the pitch passes unchanged.
    PassThrough,
}

/// The pitches one stage makes of MIDI pitch `p`.
pub open spec fn stage_pitches(s: HeldStage, p: int) -> Seq<int> {
    match s {
        HeldStage::Quantize(q) => seq![snap_pitch(q, p)],
        HeldStage::Chord(c) => chord_tones(c@, p),
        HeldStage::PassThrough => seq![p],
    }
}

/// One stage applied to every pitch of `ps` in order, outputs concatenated.
pub open spec fn fan_out(s: HeldStage, ps: Seq<int>) -> Seq<int>
    decreases ps.len(),
{
    if ps.len() == 0 {
        Seq::empty()
    } else {
        fan_out(s, ps.drop_last()) + stage_pitches(s, ps.last())
    }
}

/// The held view of MIDI pitch `pitch` through `stages`: each stage fans the
/// previous stage's pitches out in order, keeping the first [`MAX_ARP_HELD`].
pub open spec fn held_pitches(stages: Seq<HeldStage>, pitch: int) -> Seq<int>
    decreases stages.len(),
{
    if stages.len() == 0 {
        seq![pitch]
    } else {
        cap(fan_out(stages.last(), held_pitches(stages.drop_last(), pitch)), 16)
    }
}

/// The root a chord generator builds from: the first pitch of the held view,
/// or `pitch` itself when the view is empty.
pub open spec fn upstream_root(stages: Seq<HeldStage>, pitch: int) -> int {
    let v = held_pitches(stages, pitch);
    if v.len() > 0 {
        v[0]
    } else {
        pitch
    }
}

impl HeldStage {
    /// The pitches this stage makes of `pitch`.
    pub fn pitches(&self, pitch: Pitch) -> (r: Vec<Pitch>)
        ensures
            midi_of(r@) == stage_pitches(*self, pitch@ as int),
    {
        match self {
            HeldStage::Quantize(q) => {
                let p = q.snap(pitch);
                let r = vec![p];
                assert(midi_of(r@) =~= seq![p@ as int]);
                r
            },
            HeldStage::Chord(c) => c.tones(pitch),
            HeldStage::PassThrough => {
                let r = vec![pitch];
                assert(midi_of(r@) =~= seq![pitch@ as int]);
                r
            },
        }
    }
}

/// Expand one source pitch through the `upstream` stages (1→N at each stage,
/// at most [`MAX_ARP_HELD`] pitches kept per stage).
pub fn expand_held_pitch(upstream: &[HeldStage], pitch: Pitch) -> (r: Vec<Pitch>)
    ensures
        midi_of(r@) == held_pitches(upstream@, pitch@ as int),
        r@.len() <= 16,
{
    let mut cur: Vec<Pitch> = vec![pitch];
    proof {
        assert(upstream@.subrange(0, 0) =~= Seq::<HeldStage>::empty());
        assert(midi_of(cur@) =~= seq![pitch@ as int]);
    }
    let mut i: usize = 0;
    while i < upstream.len()
        invariant
            i <= upstream@.len(),
            midi_of(cur@) == held_pitches(upstream@.subrange(0, i as int), pitch@ as int),
            cur@.len() <= 16,
        decreases upstream@.len() - i,
    {
        let stage = upstream[i];
        let mut next: Vec<Pitch> = Vec::new();
        let mut j: usize = 0;
        proof {
            assert(midi_of(cur@).subrange(0, 0) =~= Seq::<int>::empty());
        }
        while j < cur.len()
            invariant
                j <= cur@.len(),
                cur@.len() <= 16,
                midi_of(next@) == cap(fan_out(stage, midi_of(cur@).subrange(0, j as int)), 16),
                next@.len() <= 16,
            decreases cur@.len() - j,
        {
            let outs = stage.pitches(cur[j]);
            let ghost before = fan_out(stage, midi_of(cur@).subrange(0, j as int));
            let mut k: usize = 0;
            proof {
                assert(stage_pitches(stage, cur@[j as int]@ as int).subrange(0, 0) =~= Seq::<int>::empty());
                assert(before + Seq::<int>::empty() =~= before);
            }
            while k < outs.len()
                invariant
                    k <= outs@.len(),
                    midi_of(outs@) == stage_pitches(stage, cur@[j as int]@ as int),
                    midi_of(next@) == cap(before + midi_of(outs@).subrange(0, k as int), 16),
                    next@.len() <= 16,
                decreases outs@.len() - k,
            {
                let ghost s = before + midi_of(outs@).subrange(0, k as int);
                proof {
                    lemma_cap_push(s, outs@[k as int]@ as int, 16);
                    assert(s.push(outs@[k as int]@ as int) =~= before + midi_of(outs@).subrange(0, k + 1));
                }
                if next.len() < 16 {
                    let ghost old_next = next@;
                    next.push(outs[k]);
                    assert(midi_of(next@) =~= midi_of(old_next).push(outs@[k as int]@ as int));
                }
                k = k + 1;
            }
            proof {
                assert(midi_of(outs@).subrange(0, outs@.len() as int) =~= midi_of(outs@));
                let ps = midi_of(cur@).subrange(0, j + 1);
                assert(ps.drop_last() =~= midi_of(cur@).subrange(0, j as int));
                assert(ps.last() == cur@[j as int]@ as int);
            }
            j = j + 1;
        }
        proof {
            assert(midi_of(cur@).subrange(0, cur@.len() as int) =~= midi_of(cur@));
            let st = upstream@.subrange(0, i + 1);
            assert(st.drop_last() =~= upstream@.subrange(0, i as int));
            assert(st.last() == stage);
        }
        cur = next;
        i = i + 1;
    }
    proof {
        assert(upstream@.subrange(0, upstream@.len() as int) =~= upstream@);
    }
    cur
}

/// The first pitch `pitch` maps to through the `upstream` stages — the root a
/// chord generator builds from — or `pitch` itself when nothing comes out.
pub fn upstream_pitch(upstream: &[HeldStage], pitch: Pitch) -> (r: Pitch)
    ensures
        r@ == upstream_root(upstream@, pitch@ as int),
{
    let v = expand_held_pitch(upstream, pitch);
    if v.len() > 0 {
        v[0]
    } else {
        pitch
    }
}

// ----------------------------------------------------------------------------
// Held notes
// ----------------------------------------------------------------------------

/// One held source note as the arpeggiator sees it (after the upstream
/// pitch transforms).
#[derive(Debug, Clone, Copy, PartialEq, Eq)]
pub struct HeldNote {
    /// The (transformed) pitch.
    pub pitch: Pitch,
    /// The source note's velocity.
    pub velocity: Velocity,
}

/// A held note as a pair of MIDI pitch and velocity.
pub open spec fn held_pair(h: HeldNote) -> (int, int) {
    (h.pitch@ as int, h.velocity@ as int)
}

/// The held notes as (pitch, velocity) pairs.
pub open spec fn held_pairs(hs: Seq<HeldNote>) -> Seq<(int, int)> {
    hs.map_values(|h: HeldNote| held_pair(h))
}

/// The held view of `pitch` for a note of velocity `vel`.
pub open spec fn with_velocity(ps: Seq<int>, vel: int) -> Seq<(int, int)> {
    ps.map_values(|p: int| (p, vel))
}

/// The held notes at `tick` among the first `n` source notes: in scan order,
/// every sounding note contributes its held view, at most [`MAX_ARP_HELD`]
/// pairs in all.
pub open spec fn held_upto(notes: Seq<Note>, n: int, tick: int, stages: Seq<HeldStage>) -> Seq<(int, int)>
    decreases n,
{
    if n <= 0 {
        Seq::empty()
    } else {
        let prev = held_upto(notes, n - 1, tick, stages);
        let note = notes[n - 1];
        if plays_at(note, tick) {
            cap(prev + with_velocity(held_pitches(stages, note.pitch@ as int), note.velocity@ as int), 16)
        } else {
            prev
        }
    }
}

/// The held notes at `tick`: every source note sounding there, viewed through
/// the `upstream` stages, in scan order, at most [`MAX_ARP_HELD`] in all (the
/// excess is dropped in scan order, not pitch order).
pub fn held_at(source: &[Note], tick: PatternTick, upstream: &[HeldStage]) -> (r: Vec<HeldNote>)
    ensures
        held_pairs(r@) == held_upto(source@, source@.len() as int, tick.0 as int, upstream@),
        r@.len() <= 16,
{
    let mut out: Vec<HeldNote> = Vec::new();
    let mut i: usize = 0;
    proof {
        assert(held_pairs(out@) =~= Seq::<(int, int)>::empty());
    }
    while i < source.len()
        invariant
            i <= source@.len(),
            held_pairs(out@) == held_upto(source@, i as int, tick.0 as int, upstream@),
            out@.len() <= 16,
        decreases source@.len() - i,
    {
        let note = source[i];
        if note.is_playing_at(tick) && out.len() < MAX_ARP_HELD {
            let ps = expand_held_pitch(upstream, note.pitch);
            let ghost before = held_pairs(out@);
            let ghost view = with_velocity(held_pitches(upstream@, note.pitch@ as int), note.velocity@ as int);
            let mut k: usize = 0;
            proof {
                assert(view.subrange(0, 0) =~= Seq::<(int, int)>::empty());
                assert(before + view.subrange(0, 0) =~= before);
            }
            while k < ps.len()
                invariant
                    k <= ps@.len(),
                    midi_of(ps@) == held_pitches(upstream@, note.pitch@ as int),
                    view == with_velocity(midi_of(ps@), note.velocity@ as int),
                    held_pairs(out@) == cap(before + view.subrange(0, k as int), 16),
                    out@.len() <= 16,
                decreases ps@.len() - k,
            {
                let ghost s = before + view.subrange(0, k as int);
                proof {
                    lemma_cap_push(s, view[k as int], 16);
                    assert(s.push(view[k as int]) =~= before + view.subrange(0, k + 1));
                }
                if out.len() < MAX_ARP_HELD {
                    let ghost old_out = out@;
                    out.push(HeldNote { pitch: ps[k], velocity: note.velocity });
                    assert(held_pairs(out@) =~= held_pairs(old_out).push(view[k as int]));
                }
                k = k + 1;
            }
            proof {
                assert(view.subrange(0, ps@.len() as int) =~= view);
            }
        } else {
            proof {
                if plays_at(note, tick.0 as int) {
                    let prev = held_upto(source@, i as int, tick.0 as int, upstream@);
                    let view = with_velocity(held_pitches(upstream@, note.pitch@ as int), note.velocity@ as int);
                    assert(cap(prev + view, 16) =~= prev);
                }
            }
        }
        i = i + 1;
    }
    out
}

// ----------------------------------------------------------------------------
// Ordering the held chord
// ----------------------------------------------------------------------------

/// The sort key of a held pair: its pitch, negated for a descending order.
pub open spec fn order_key(h: (int, int), descending: bool) -> int {
    if descending {
        -h.0
    } else {
        h.0
    }
}

/// Insert `x` into `s` after every entry whose key is not greater than its
/// own (insertion from the back, as a stable insertion sort does).
pub open spec fn insert_ordered(s: Seq<(int, int)>, x: (int, int), descending: bool) -> Seq<(int, int)>
    decreases s.len(),
{
    if s.len() == 0 {
        seq![x]
    } else if order_key(s.last(), descending) <= order_key(x, descending) {
        s.push(x)
    } else {
        insert_ordered(s.drop_last(), x, descending).push(s.last())
    }
}

/// `s` stably sorted by pitch (ascending, or descending when `descending`):
/// equal pitches keep their scan order.
pub open spec fn ordered(s: Seq<(int, int)>, descending: bool) -> Seq<(int, int)>
    decreases s.len(),
{
    if s.len() == 0 {
        Seq::empty()
    } else {
        insert_ordered(ordered(s.drop_last(), descending), s.last(), descending)
    }
}

/// Inserting at `pos` — past every entry of key at most `x`'s, before the
/// trailing entries of greater key — is `insert_ordered`.
proof fn lemma_insert_ordered_at(s: Seq<(int, int)>, x: (int, int), descending: bool, pos: int)
    requires
        0 <= pos <= s.len(),
        forall|j: int| pos <= j < s.len() ==> order_key(s[j], descending) > order_key(x, descending),
        pos > 0 ==> order_key(s[pos - 1], descending) <= order_key(x, descending),
    ensures
        insert_ordered(s, x, descending) == s.insert(pos, x),
    decreases s.len(),
{
    if s.len() == 0 {
        assert(s.insert(pos, x) =~= seq![x]);
    } else if pos == s.len() {
        assert(s.insert(pos, x) =~= s.push(x));
    } else {
        lemma_insert_ordered_at(s.drop_last(), x, descending, pos);
        assert(s.insert(pos, x) =~= s.drop_last().insert(pos, x).push(s.last()));
    }
}

/// The held notes stably sorted by pitch, ascending or descending.
pub fn order_held(held: &Vec<HeldNote>, descending: bool) -> (r: Vec<HeldNote>)
    ensures
        held_pairs(r@) == ordered(held_pairs(held@), descending),
{
    let mut out: Vec<HeldNote> = Vec::new();
    let mut i: usize = 0;
    proof {
        assert(held_pairs(held@).subrange(0, 0) =~= Seq::<(int, int)>::empty());
        assert(held_pairs(out@) =~= Seq::<(int, int)>::empty());
    }
    while i < held.len()
        invariant
            i <= held@.len(),
            held_pairs(out@) == ordered(held_pairs(held@).subrange(0, i as int), descending),
            out@.len() == i,
        decreases held@.len() - i,
    {
        let x = held[i];
        let key: i16 = if descending { -(x.pitch.as_midi() as i16) } else { x.pitch.as_midi() as i16 };
        let mut pos: usize = out.len();
        while pos > 0
            invariant
                pos <= out@.len(),
                forall|j: int| pos <= j < out@.len() ==> order_key(held_pair(out@[j]), descending)
                    > order_key(held_pair(x), descending),
                key == order_key(held_pair(x), descending),
            ensures
                pos <= out@.len(),
                forall|j: int| pos <= j < out@.len() ==> order_key(held_pair(out@[j]), descending)
                    > order_key(held_pair(x), descending),
                pos > 0 ==> order_key(held_pair(out@[pos - 1]), descending) <= order_key(held_pair(x), descending),
            decreases pos,
        {
            let y = out[pos - 1];
            let ykey: i16 = if descending { -(y.pitch.as_midi() as i16) } else { y.pitch.as_midi() as i16 };
            if ykey <= key {
                break;
            }
            pos = pos - 1;
        }
        proof {
            let ps = held_pairs(out@);
            lemma_insert_ordered_at(ps, held_pair(x), descending, pos as int);
            let pre = held_pairs(held@).subrange(0, i + 1);
            assert(pre.drop_last() =~= held_pairs(held@).subrange(0, i as int));
            assert(pre.last() == held_pair(x));
        }
        let ghost old_out = out@;
        out.insert(pos, x);
        assert(held_pairs(out@) =~= held_pairs(old_out).insert(pos as int, held_pair(x)));
        i = i + 1;
    }
    proof {
        assert(held_pairs(held@).subrange(0, held@.len() as int) =~= held_pairs(held@));
    }
    out
}

// ----------------------------------------------------------------------------
// Which chord plays: the anchor and the latch
// ----------------------------------------------------------------------------

/// The earliest start among the first `n` source notes that sound at `tick`.
pub open spec fn anchor_upto(notes: Seq<Note>, n: int, tick: int) -> Option<int>
    decreases n,
{
    if n <= 0 {
        None
    } else {
        let prev = anchor_upto(notes, n - 1, tick);
        let x = notes[n - 1];
        if plays_at(x, tick) {
            match prev {
                Some(a) => Some(if (x.start.0 as int) < a { x.start.0 as int } else { a }),
                None => Some(x.start.0 as int),
            }
        } else {
            prev
        }
    }
}

/// The earliest start among the source notes sounding at `tick`.
pub open spec fn anchor_of(notes: Seq<Note>, tick: int) -> Option<int> {
    anchor_upto(notes, notes.len() as int, tick)
}

/// The latest note end at or before `tick` among the first `n` notes (notes
/// without a duration have no end).
pub open spec fn last_end_upto(notes: Seq<Note>, n: int, tick: int) -> Option<int>
    decreases n,
{
    if n <= 0 {
        None
    } else {
        let prev = last_end_upto(notes, n - 1, tick);
        match note_end(notes[n - 1]) {
            Some(e) => if e <= tick {
                match prev {
                    Some(b) => Some(if e > b { e } else { b }),
                    None => Some(e),
                }
            } else {
                prev
            },
            None => prev,
        }
    }
}

/// The chord the arpeggiator plays at `tick`, as (source tick, anchor): the
/// notes sounding at `tick`; else, when latching, the chord that sounded on
/// the tick just before the latest note end at or before `tick`.
pub open spec fn chord_source_of(notes: Seq<Note>, tick: int, latch: bool) -> Option<(int, int)> {
    match anchor_of(notes, tick) {
        Some(a) => Some((tick, a)),
        None => if !latch {
            None
        } else {
            match last_end_upto(notes, notes.len() as int, tick) {
                Some(e) => if e > 0 {
                    match anchor_of(notes, e - 1) {
                        Some(a) => Some((e - 1, a)),
                        None => None,
                    }
                } else {
                    None
                },
                None => None,
            }
        },
    }
}

/// The anchor is the earliest start among the sounding notes: it exists
/// exactly when some note sounds, it is the start of a sounding note, and no
/// sounding note starts before it.
pub proof fn lemma_anchor_is_earliest_start(notes: Seq<Note>, n: int, tick: int)
    requires
        0 <= n <= notes.len(),
    ensures
        anchor_upto(notes, n, tick) is None <==> (forall|i: int| 0 <= i < n ==> !#[trigger] plays_at(notes[i], tick)),
        anchor_upto(notes, n, tick) matches Some(a) ==> {
            &&& exists|i: int| 0 <= i < n && #[trigger] plays_at(notes[i], tick) && notes[i].start.0 == a
            &&& forall|i: int| 0 <= i < n && #[trigger] plays_at(notes[i], tick) ==> a <= notes[i].start.0
        },
    decreases n,
{
    if n > 0 {
        lemma_anchor_is_earliest_start(notes, n - 1, tick);
        let prev = anchor_upto(notes, n - 1, tick);
        if plays_at(notes[n - 1], tick) {
            if let Some(a) = prev {
                let i = choose|i: int| 0 <= i < n - 1 && #[trigger] plays_at(notes[i], tick) && notes[i].start.0 == a;
                assert(0 <= i < n && plays_at(notes[i], tick) && notes[i].start.0 == a);
            }
        } else if let Some(a) = prev {
            let i = choose|i: int| 0 <= i < n - 1 && #[trigger] plays_at(notes[i], tick) && notes[i].start.0 == a;
            assert(0 <= i < n && plays_at(notes[i], tick) && notes[i].start.0 == a);
        }
    }
}

/// The earliest start among the source notes sounding at `tick` (`None` when
/// nothing sounds).
pub fn anchor_at(source: &[Note], tick: PatternTick) -> (r: Option<u32>)
    ensures
        (match r {
            Some(a) => Some(a as int),
            None => None,
        }) == anchor_of(source@, tick.0 as int),
{
    let mut best: Option<u32> = None;
    let mut i: usize = 0;
    while i < source.len()
        invariant
            i <= source@.len(),
            (match best {
                Some(a) => Some(a as int),
                None => None,
            }) == anchor_upto(source@, i as int, tick.0 as int),
        decreases source@.len() - i,
    {
        let note = source[i];
        if note.is_playing_at(tick) {
            best = match best {
                Some(a) => Some(if note.start.0 < a { note.start.0 } else { a }),
                None => Some(note.start.0),
            };
        }
        i = i + 1;
    }
    best
}

/// The latest note end at or before `tick`.
fn last_end_at_or_before(source: &[Note], tick: PatternTick) -> (r: Option<u32>)
    ensures
        (match r {
            Some(e) => Some(e as int),
            None => None,
        }) == last_end_upto(source@, source@.len() as int, tick.0 as int),
{
    let mut best: Option<u32> = None;
    let mut i: usize = 0;
    while i < source.len()
        invariant
            i <= source@.len(),
            (match best {
                Some(e) => Some(e as int),
                None => None,
            }) == last_end_upto(source@, i as int, tick.0 as int),
        decreases source@.len() - i,
    {
        let note = source[i];
        match note.duration {
            Some(d) => {
                let e: u64 = note.start.0 as u64 + d.0 as u64;
                if e <= tick.0 as u64 {
                    let e32: u32 = e as u32;
                    best = match best {
                        Some(b) => Some(if e32 > b { e32 } else { b }),
                        None => Some(e32),
                    };
                }
            },
            None => {},
        }
        i = i + 1;
    }
    best
}

// ----------------------------------------------------------------------------
// Seeded draws
// ----------------------------------------------------------------------------

/// `x + y` modulo 2^64.
pub open spec fn wrap_add64(x: u64, y: u64) -> u64 {
    if x + y > u64::MAX {
        (x + y - 0x1_0000_0000_0000_0000) as u64
    } else {
        (x + y) as u64
    }
}

/// `x * y` modulo 2^64.
pub open spec fn wrap_mul64(x: u64, y: u64) -> u64 {
    ((x as nat * y as nat) % 0x1_0000_0000_0000_0000nat) as u64
}

/// The SplitMix64 step: add the golden-ratio increment, then the two
/// xor-shift-multiply rounds and a final xor-shift.
pub open spec fn splitmix64_spec(x: u64) -> u64 {
    let z0 = wrap_add64(x, 0x9E37_79B9_7F4A_7C15);
    let z1 = wrap_mul64(z0 ^ (z0 >> 30u64), 0xBF58_476D_1CE4_E5B9);
    let z2 = wrap_mul64(z1 ^ (z1 >> 27u64), 0x94D0_49BB_1331_11EB);
    z2 ^ (z2 >> 31u64)
}

/// SplitMix64: a well-mixed 64-bit value from a 64-bit key, the deterministic
/// stand-in for randomness on the audio path.
pub fn splitmix64(x: u64) -> (r: u64)
    ensures
        r == splitmix64_spec(x),
{
    let z0 = x.wrapping_add(0x9E37_79B9_7F4A_7C15);
    let z1 = (z0 ^ (z0 >> 30u64)).wrapping_mul(0xBF58_476D_1CE4_E5B9);
    let z2 = (z1 ^ (z1 >> 27u64)).wrapping_mul(0x94D0_49BB_1331_11EB);
    z2 ^ (z2 >> 31u64)
}

// ----------------------------------------------------------------------------
// The step grid
// ----------------------------------------------------------------------------

/// Step length in ticks of a rate. The named divisions are exact on the
/// 960-PPQN grid; `Ticks(n)` is `n` (at least 1); `MilliHz(m)` is the nominal
/// length at the default tempo of 120 BPM, `16·120·1000 / m` rounded half up
/// (at least 1).
pub open spec fn rate_ticks(r: ArpRate) -> int {
    match r {
        ArpRate::Quarter => 960,
        ArpRate::QuarterDotted => 1440,
        ArpRate::QuarterTriplet => 640,
        ArpRate::Eighth => 480,
        ArpRate::EighthDotted => 720,
        ArpRate::EighthTriplet => 320,
        ArpRate::Sixteenth => 240,
        ArpRate::SixteenthDotted => 360,
        ArpRate::SixteenthTriplet => 160,
        ArpRate::ThirtySecond => 120,
        ArpRate::ThirtySecondDotted => 180,
        ArpRate::ThirtySecondTriplet => 80,
        ArpRate::Ticks(n) => if n < 1 { 1 } else { n as int },
        ArpRate::MilliHz(m) => {
            let mm: int = if m < 1 { 1 } else { m as int };
            let q = (3_840_000 + mm) / (2 * mm);
            if q < 1 { 1 } else { q }
        },
    }
}

impl ArpRate {
    /// Step length in ticks (see [`rate_ticks`]). For `MilliHz` this is only
    /// a nominal length; the live step length depends on the tempo.
    pub fn ticks(self) -> (r: Duration)
        ensures
            r.0 == rate_ticks(self),
            r.0 >= 1,
    {
        match self {
            ArpRate::Quarter => Duration(960),
            ArpRate::QuarterDotted => Duration(1440),
            ArpRate::QuarterTriplet => Duration(640),
            ArpRate::Eighth => Duration(480),
            ArpRate::EighthDotted => Duration(720),
            ArpRate::EighthTriplet => Duration(320),
            ArpRate::Sixteenth => Duration(240),
            ArpRate::SixteenthDotted => Duration(360),
            ArpRate::SixteenthTriplet => Duration(160),
            ArpRate::ThirtySecond => Duration(120),
            ArpRate::ThirtySecondDotted => Duration(180),
            ArpRate::ThirtySecondTriplet => Duration(80),
            ArpRate::Ticks(n) => Duration(if n < 1 { 1 } else { n }),
            ArpRate::MilliHz(m) => {
                let mm: u64 = if m < 1 { 1 } else { m as u64 };
                let q: u64 = (3_840_000 + mm) / (2 * mm);
                assert(q <= 3_840_001) by (nonlinear_arith)
                    requires
                        mm >= 1,
                        q == (3_840_000 + mm) / (2 * mm),
                ;
                Duration(if q < 1 { 1 } else { q as u32 })
            },
        }
    }
}

/// Whether `tick` is a step onset on an integer step grid anchored at
/// `anchor`, and if so (step index, gated duration). Odd steps are delayed by
/// `swing` ticks; the gated length is clamped to at least one tick and at most
/// the gap to the next (swung) onset.
pub open spec fn grid_onset(anchor: int, tick: int, len: int, swing: int, gated: int) -> Option<(int, int)> {
    let rel = if tick >= anchor { tick - anchor } else { 0 };
    let step = rel / len;
    let onset = step * len + (if step % 2 == 1 { swing } else { 0 });
    if rel != onset {
        None
    } else {
        let gap = if step % 2 == 0 { len + swing } else { len - swing };
        let g = if gap < 1 { 1 } else { gap };
        Some((step, if gated < 1 { 1 } else if gated > g { g } else { gated }))
    }
}

/// Whether `tick` is a step onset on a grid of `step_len`-tick steps that
/// starts at `anchor` (odd steps delayed by `swing_ticks`, notes `gated`
/// ticks long): the step index and the note length when it is.
pub fn step_onset_on_grid(anchor: u32, tick: PatternTick, step_len: u32, swing_ticks: u32, gated: u32) -> (r: Option<(u32, u32)>)
    requires
        step_len >= 1,
        swing_ticks <= step_len,
    ensures
        (match r {
            Some((s, d)) => Some((s as int, d as int)),
            None => None,
        }) == grid_onset(anchor as int, tick.0 as int, step_len as int, swing_ticks as int, gated as int),
{
    let rel: u32 = tick.0.saturating_sub(anchor);
    let step: u32 = rel / step_len;
    assert(step as int * step_len as int <= rel) by (nonlinear_arith)
        requires
            step == rel / step_len,
            step_len >= 1,
    ;
    let onset: u64 = step as u64 * step_len as u64 + if step % 2 == 1 { swing_ticks as u64 } else { 0 };
    if rel as u64 != onset {
        return None;
    }
    let gap: u64 = if step % 2 == 0 { step_len as u64 + swing_ticks as u64 } else { (step_len - swing_ticks) as u64 };
    let g: u64 = if gap < 1 { 1 } else { gap };
    let d: u64 = if (gated as u64) < 1 { 1 } else if gated as u64 > g { g } else { gated as u64 };
    Some((step, d as u32))
}

// ----------------------------------------------------------------------------
// The arpeggiator's step logic
// ----------------------------------------------------------------------------

/// The discrete part of an arpeggiator's configuration — everything that
/// decides which chord member sounds on which step. The step gate and swing
/// are fractions of the step length; callers resolve them to tick counts.
#[derive(Debug, Clone, Copy, PartialEq, Eq)]
pub struct ArpConfig {
    /// Step order over the held chord.
    pub mode: ArpMode,
    /// Tempo-synced step length.
    pub rate: ArpRate,
    /// Octave range (1–4; values outside are clamped at use).
    pub octaves: u8,
    /// Keep playing the last chord through gaps.
    pub latch: bool,
    /// Keep the step cycle on absolute pattern time instead of restarting it
    /// at every new chord.
    pub continuous_phase: bool,
    /// Offsets cycled in `Custom` mode.
    pub custom: ArpOffsets,
}

impl Default for ArpConfig {
    /// Up, sixteenth notes, one octave, no latch, phase per chord, no custom
    /// offsets.
    fn default() -> (r: Self)
        ensures
            r.mode == ArpMode::Up,
            r.rate == ArpRate::Sixteenth,
            r.octaves == 1,
            !r.latch,
            !r.continuous_phase,
            r.custom.len == 0,
    {
        ArpConfig {
            mode: ArpMode::Up,
            rate: ArpRate::Sixteenth,
            octaves: 1,
            latch: false,
            continuous_phase: false,
            custom: ArpOffsets::default(),
        }
    }
}

/// One step the arpeggiator sounds: the pitch, the source velocity, and the
/// step's position in its velocity-ramp cycle.
#[derive(Debug, Clone, Copy, PartialEq, Eq)]
pub struct ArpHit {
    /// Pitch to sound.
    pub pitch: Pitch,
    /// The source note's velocity, before any ramp.
    pub velocity: Velocity,
    /// Position of this step within its cycle.
    pub pos: u32,
    /// Length of the cycle the velocity ramp spans.
    pub cycle_len: u32,
}

/// A hit as (pitch, velocity, position, cycle length).
pub open spec fn hit_tuple(h: ArpHit) -> (int, int, int, int) {
    (h.pitch@ as int, h.velocity@ as int, h.pos as int, h.cycle_len as int)
}

/// The hits as tuples.
pub open spec fn hit_tuples(hs: Seq<ArpHit>) -> Seq<(int, int, int, int)> {
    hs.map_values(|h: ArpHit| hit_tuple(h))
}

/// The octave range actually used: `octaves` clamped to 1–4.
pub open spec fn clamp_octaves(o: u8) -> int {
    if o < 1 {
        1
    } else if o > 4 {
        4
    } else {
        o as int
    }
}

/// Whether a mode walks up and back down (or down and back up).
pub open spec fn is_bounce(m: ArpMode) -> bool {
    m == ArpMode::UpDown || m == ArpMode::DownUp
}

/// Steps in one cycle over `total` members: a bounce mode mirrors without
/// repeating the endpoints.
pub open spec fn cycle_len(m: ArpMode, total: int) -> int {
    if is_bounce(m) && total > 1 {
        2 * total - 2
    } else {
        total
    }
}

/// The member index played at cycle position `pos`.
pub open spec fn member_index(m: ArpMode, total: int, pos: int, draw: u64) -> int {
    if is_bounce(m) && pos >= total {
        2 * total - 2 - pos
    } else if m == ArpMode::Random {
        (draw % (total as u64)) as int
    } else {
        pos
    }
}

/// The seeded draw of a `Random` step.
pub open spec fn arp_draw(step: u32, anchor: u32, salt: u64) -> u64 {
    splitmix64_spec((step as u64) ^ ((anchor as u64) << 32u64) ^ salt)
}

/// The held chord in the order a mode walks it.
pub open spec fn ordered_for(m: ArpMode, held: Seq<(int, int)>) -> Seq<(int, int)> {
    if m == ArpMode::Up || m == ArpMode::UpDown {
        ordered(held, false)
    } else if m == ArpMode::Down || m == ArpMode::DownUp {
        ordered(held, true)
    } else {
        held
    }
}

/// `s` runs in ascending pitch (descending when `descending`).
pub open spec fn pitch_sorted(s: Seq<(int, int)>, descending: bool) -> bool {
    forall|i: int, j: int|
        0 <= i < j < s.len() ==> if descending {
            (#[trigger] s[i]).0 >= (#[trigger] s[j]).0
        } else {
            s[i].0 <= s[j].0
        }
}

/// How each mode walks the held chord: it walks exactly the held notes; Up
/// and UpDown go by ascending pitch, Down and DownUp by descending pitch, so
/// that Down and DownUp start from the highest held note and Up and UpDown
/// from the lowest; the other modes keep the scan order.
pub proof fn lemma_mode_walk_order(m: ArpMode, held: Seq<(int, int)>)
    ensures
        ordered_for(m, held).to_multiset() == held.to_multiset(),
        ordered_for(m, held).len() == held.len(),
        m == ArpMode::Up || m == ArpMode::UpDown ==> pitch_sorted(ordered_for(m, held), false),
        m == ArpMode::Down || m == ArpMode::DownUp ==> pitch_sorted(ordered_for(m, held), true),
        (m == ArpMode::Down || m == ArpMode::DownUp) && held.len() > 0 ==> forall|i: int|
            0 <= i < held.len() ==> ordered_for(m, held)[0].0 >= (#[trigger] held[i]).0,
        (m == ArpMode::Up || m == ArpMode::UpDown) && held.len() > 0 ==> forall|i: int|
            0 <= i < held.len() ==> ordered_for(m, held)[0].0 <= (#[trigger] held[i]).0,
        !(m == ArpMode::Up || m == ArpMode::UpDown || m == ArpMode::Down || m == ArpMode::DownUp)
            ==> ordered_for(m, held) == held,
{
    let desc = m == ArpMode::Down || m == ArpMode::DownUp;
    lemma_ordered_sorted(held, desc);
    lemma_ordered_len(held, desc);
    let o = ordered_for(m, held);
    if held.len() > 0 && (m == ArpMode::Up || m == ArpMode::UpDown || m == ArpMode::Down || m == ArpMode::DownUp) {
        assert forall|i: int| 0 <= i < held.len() implies (if desc {
            o[0].0 >= (#[trigger] held[i]).0
        } else {
            o[0].0 <= held[i].0
        }) by {
            vstd::seq_lib::to_multiset_contains(held, held[i]);
            vstd::seq_lib::to_multiset_contains(o, held[i]);
            assert(held.contains(held[i]));
            let j = choose|j: int| 0 <= j < o.len() && o[j] == held[i];
            if j > 0 {
                assert(if desc { o[0].0 >= o[j].0 } else { o[0].0 <= o[j].0 });
            }
        }
    }
}

/// The key order of a sequence is non-decreasing.
spec fn key_sorted(s: Seq<(int, int)>, descending: bool) -> bool {
    forall|i: int, j: int| 0 <= i < j < s.len() ==> order_key(#[trigger] s[i], descending) <= order_key(#[trigger] s[j], descending)
}

/// Sorting by pitch keeps the notes and orders them by key.
proof fn lemma_ordered_sorted(s: Seq<(int, int)>, descending: bool)
    ensures
        key_sorted(ordered(s, descending), descending),
        pitch_sorted(ordered(s, descending), descending),
        ordered(s, descending).to_multiset() == s.to_multiset(),
    decreases s.len(),
{
    if s.len() == 0 {
        assert(s =~= Seq::<(int, int)>::empty());
        assert(ordered(s, descending) == s);
    } else {
        let d = s.drop_last();
        lemma_ordered_sorted(d, descending);
        lemma_insert_ordered_sorted(ordered(d, descending), s.last(), descending);
        assert(s =~= d.push(s.last()));
        vstd::seq_lib::to_multiset_build(d, s.last());
    }
    let o = ordered(s, descending);
    assert forall|i: int, j: int| 0 <= i < j < o.len() implies (if descending {
        (#[trigger] o[i]).0 >= (#[trigger] o[j]).0
    } else {
        o[i].0 <= o[j].0
    }) by {
        assert(order_key(o[i], descending) <= order_key(o[j], descending));
    }
}

/// Inserting into a key-sorted sequence keeps it key-sorted and adds exactly
/// the inserted entry.
proof fn lemma_insert_ordered_sorted(s: Seq<(int, int)>, x: (int, int), descending: bool)
    requires
        key_sorted(s, descending),
    ensures
        key_sorted(insert_ordered(s, x, descending), descending),
        insert_ordered(s, x, descending).to_multiset() == s.to_multiset().insert(x),
    decreases s.len(),
{
    let r = insert_ordered(s, x, descending);
    if s.len() == 0 {
        assert(r =~= Seq::<(int, int)>::empty().push(x));
        vstd::seq_lib::to_multiset_build(Seq::<(int, int)>::empty(), x);
        assert(s =~= Seq::<(int, int)>::empty());
    } else if order_key(s.last(), descending) <= order_key(x, descending) {
        vstd::seq_lib::to_multiset_build(s, x);
        assert forall|i: int, j: int| 0 <= i < j < r.len() implies order_key(#[trigger] r[i], descending) <= order_key(
            #[trigger] r[j],
            descending,
        ) by {
            if j == s.len() {
                if i < s.len() - 1 {
                    assert(order_key(s[i], descending) <= order_key(s[s.len() - 1], descending));
                }
            }
        }
    } else {
        let d = s.drop_last();
        let l = s.last();
        assert(key_sorted(d, descending));
        lemma_insert_ordered_sorted(d, x, descending);
        let r1 = insert_ordered(d, x, descending);
        lemma_insert_ordered_len(d, x, descending);
        lemma_insert_ordered_bound(d, x, descending, order_key(l, descending));
        assert(r == r1.push(l));
        vstd::seq_lib::to_multiset_build(r1, l);
        vstd::seq_lib::to_multiset_build(d, l);
        assert(s =~= d.push(l));
        assert(r.to_multiset() =~= s.to_multiset().insert(x));
        assert forall|i: int, j: int| 0 <= i < j < r.len() implies order_key(#[trigger] r[i], descending) <= order_key(
            #[trigger] r[j],
            descending,
        ) by {
            if j == r1.len() {
                assert(r[i] == r1[i]);
            } else {
                assert(r[i] == r1[i] && r[j] == r1[j]);
            }
        }
    }
}

/// Inserting keeps every key under a bound that the sequence and the
/// inserted entry both stay under.
proof fn lemma_insert_ordered_bound(s: Seq<(int, int)>, x: (int, int), descending: bool, b: int)
    requires
        forall|i: int| 0 <= i < s.len() ==> order_key(#[trigger] s[i], descending) <= b,
        order_key(x, descending) <= b,
    ensures
        forall|i: int|
            0 <= i < insert_ordered(s, x, descending).len() ==> order_key(
                #[trigger] insert_ordered(s, x, descending)[i],
                descending,
            ) <= b,
    decreases s.len(),
{
    if s.len() > 0 && order_key(s.last(), descending) > order_key(x, descending) {
        let d = s.drop_last();
        lemma_insert_ordered_bound(d, x, descending, b);
        let r1 = insert_ordered(d, x, descending);
        let r = insert_ordered(s, x, descending);
        assert forall|i: int| 0 <= i < r.len() implies order_key(#[trigger] r[i], descending) <= b by {
            if i < r1.len() {
                assert(r[i] == r1[i]);
            } else {
                assert(r[i] == s.last());
            }
        }
    }
}

/// `Chord` mode: every held member, `oct` octaves up, each a hit at
/// position `oct` of an `octaves`-long cycle; members transposed off the
/// MIDI range are skipped.
pub open spec fn octave_hits(held: Seq<(int, int)>, oct: int, octaves: int) -> Seq<(int, int, int, int)>
    decreases held.len(),
{
    if held.len() == 0 {
        Seq::empty()
    } else {
        let prev = octave_hits(held.drop_last(), oct, octaves);
        let h = held.last();
        let p = h.0 + 12 * oct;
        if 0 <= p <= 127 {
            prev.push((p, h.1, oct, octaves))
        } else {
            prev
        }
    }
}

/// The hits of step `step` over a held chord (every mode but `Custom`).
pub open spec fn held_hits(cfg: ArpConfig, held: Seq<(int, int)>, anchor: u32, step: u32, salt: u64) -> Seq<(int, int, int, int)> {
    if held.len() == 0 {
        Seq::empty()
    } else {
        let ord = ordered_for(cfg.mode, held);
        let oct = clamp_octaves(cfg.octaves);
        let n = held.len() as int;
        let total = n * oct;
        if cfg.mode == ArpMode::Chord {
            octave_hits(ord, (step as int) % oct, oct)
        } else {
            let cyc = cycle_len(cfg.mode, total);
            let pos = (step as int) % cyc;
            let idx = member_index(cfg.mode, total, pos, arp_draw(step, anchor, salt));
            let m = ord[idx % n];
            let p = m.0 + 12 * (idx / n);
            if 0 <= p <= 127 {
                seq![(p, m.1, pos, cyc)]
            } else {
                Seq::empty()
            }
        }
    }
}

/// The (pitch, velocity) of each hit.
pub open spec fn hit_notes(hs: Seq<(int, int, int, int)>) -> Seq<(int, int)> {
    hs.map_values(|h: (int, int, int, int)| (h.0, h.1))
}

/// The walk of a bounce mode (`UpDown`, `DownUp`) over `total` members: its
/// first `total` steps play what the one-way mode (`Up`, `Down`) plays; on
/// the way back, step `2·total − 2 − k` plays what step `k` played; and a
/// cycle later every non-random walk repeats itself.
pub proof fn lemma_bounce_walk(cfg: ArpConfig, held: Seq<(int, int)>, anchor: u32, k: u32, j: u32, salt: u64)
    requires
        held.len() > 0,
    ensures
        ({
            let total = held.len() * clamp_octaves(cfg.octaves);
            let one_way = ArpConfig {
                mode: if cfg.mode == ArpMode::UpDown { ArpMode::Up } else { ArpMode::Down },
                ..cfg
            };
            let here = hit_notes(held_hits(cfg, held, anchor, k, salt));
            let there = hit_notes(held_hits(cfg, held, anchor, j, salt));
            &&& is_bounce(cfg.mode) && (k as int) < total ==> here == hit_notes(held_hits(one_way, held, anchor, k, salt))
            &&& is_bounce(cfg.mode) && total > 1 && 0 < k < total && j == 2 * total - 2 - k ==> here == there
            &&& cfg.mode != ArpMode::Random && cfg.mode != ArpMode::Chord && j == k + cycle_len(cfg.mode, total) ==> here
                == there
        }),
{
    let oct = clamp_octaves(cfg.octaves);
    let n = held.len() as int;
    let total = n * oct;
    assert(total >= n) by (nonlinear_arith)
        requires
            oct >= 1,
            n > 0,
            total == n * oct,
    ;
    let cyc = cycle_len(cfg.mode, total);
    assert(cyc >= 1);
    if is_bounce(cfg.mode) && (k as int) < total {
        let one_way = ArpConfig {
            mode: if cfg.mode == ArpMode::UpDown { ArpMode::Up } else { ArpMode::Down },
            ..cfg
        };
        vstd::arithmetic::div_mod::lemma_small_mod(k as nat, cyc as nat);
        vstd::arithmetic::div_mod::lemma_small_mod(k as nat, total as nat);
        assert(ordered_for(cfg.mode, held) == ordered_for(one_way.mode, held));
    }
    if is_bounce(cfg.mode) && total > 1 && 0 < k < total && j == 2 * total - 2 - k {
        vstd::arithmetic::div_mod::lemma_small_mod(k as nat, cyc as nat);
        vstd::arithmetic::div_mod::lemma_small_mod(j as nat, cyc as nat);
        assert(member_index(cfg.mode, total, j as int, arp_draw(j, anchor, salt)) == k as int);
        assert(member_index(cfg.mode, total, k as int, arp_draw(k, anchor, salt)) == k as int);
    }
    if cfg.mode != ArpMode::Random && cfg.mode != ArpMode::Chord && j == k + cyc {
        vstd::arithmetic::div_mod::lemma_mod_add_multiples_vanish(k as int, cyc);
        let pk = (k as int) % cyc;
        let pj = (j as int) % cyc;
        assert(pk == pj);
        assert(member_index(cfg.mode, total, pk, arp_draw(k, anchor, salt)) == member_index(
            cfg.mode,
            total,
            pj,
            arp_draw(j, anchor, salt),
        ));
    }
}

/// Octaves stack the held walk: within a cycle over `n` held members and
/// several octaves, the step `n` later plays the same member an octave up
/// (when both steps sound), for every walk but `Random` and `Chord`.
pub proof fn lemma_octave_layers(cfg: ArpConfig, held: Seq<(int, int)>, anchor: u32, k: u32, j: u32, salt: u64)
    requires
        held.len() > 0,
        cfg.mode != ArpMode::Random,
        cfg.mode != ArpMode::Chord,
        j == k + held.len(),
        (j as int) < held.len() * clamp_octaves(cfg.octaves),
    ensures
        ({
            let here = hit_notes(held_hits(cfg, held, anchor, k, salt));
            let there = hit_notes(held_hits(cfg, held, anchor, j, salt));
            here.len() == 1 && there.len() == 1 ==> there[0] == (here[0].0 + 12, here[0].1)
        }),
{
    let oct = clamp_octaves(cfg.octaves);
    let n = held.len() as int;
    let total = n * oct;
    let cyc = cycle_len(cfg.mode, total);
    assert(cyc >= total) by (nonlinear_arith)
        requires
            cyc == (if is_bounce(cfg.mode) && total > 1 { 2 * total - 2 } else { total }),
            total > n,
            n > 0,
    ;
    vstd::arithmetic::div_mod::lemma_small_mod(k as nat, cyc as nat);
    vstd::arithmetic::div_mod::lemma_small_mod(j as nat, cyc as nat);
    assert((j as int) % n == (k as int) % n && (j as int) / n == (k as int) / n + 1) by {
        vstd::arithmetic::div_mod::lemma_mod_add_multiples_vanish(k as int, n);
        vstd::arithmetic::div_mod::lemma_div_plus_one(k as int, n);
    }
}

/// Among the first `n` notes sounding at `tick` that start at `anchor`, the
/// first of lowest pitch, as (pitch, velocity).
pub open spec fn anchor_note_upto(notes: Seq<Note>, n: int, tick: int, anchor: int) -> Option<(int, int)>
    decreases n,
{
    if n <= 0 {
        None
    } else {
        let prev = anchor_note_upto(notes, n - 1, tick, anchor);
        let x = notes[n - 1];
        let better = match prev {
            Some(b) => (x.pitch@ as int) < b.0,
            None => true,
        };
        if plays_at(x, tick) && x.start.0 == anchor && better {
            Some((x.pitch@ as int, x.velocity@ as int))
        } else {
            prev
        }
    }
}

/// `Custom` mode: the offset list cycled over the anchor note's (upstream
/// transformed) pitch, `octaves` multiplying the cycle.
pub open spec fn custom_hits(cfg: ArpConfig, notes: Seq<Note>, source_tick: int, anchor: u32, stages: Seq<HeldStage>, step: u32) -> Seq<(int, int, int, int)> {
    let l = cfg.custom.len as int;
    if l == 0 {
        Seq::empty()
    } else {
        match anchor_note_upto(notes, notes.len() as int, source_tick, anchor as int) {
            None => Seq::empty(),
            Some(an) => {
                let root = upstream_root(stages, an.0);
                let cyc = l * clamp_octaves(cfg.octaves);
                let pos = (step as int) % cyc;
                let q = root + cfg.custom.values[pos % l] as int + 12 * (pos / l);
                if 0 <= q <= 127 {
                    seq![(q, an.1, pos, cyc)]
                } else {
                    Seq::empty()
                }
            },
        }
    }
}

/// Everything step `step` of the chord anchored at `anchor` (read at
/// `source_tick`) sounds.
pub open spec fn arp_hits(cfg: ArpConfig, notes: Seq<Note>, source_tick: int, anchor: u32, stages: Seq<HeldStage>, step: u32, salt: u64) -> Seq<(int, int, int, int)> {
    if cfg.mode == ArpMode::Custom {
        custom_hits(cfg, notes, source_tick, anchor, stages, step)
    } else {
        held_hits(cfg, held_upto(notes, notes.len() as int, source_tick, stages), anchor, step, salt)
    }
}

impl ArpConfig {
    /// The chord the arpeggiator plays at `tick`: (source tick, anchor) — see
    /// [`chord_source_of`].
    pub fn chord_source(&self, source: &[Note], tick: PatternTick) -> (r: Option<(PatternTick, u32)>)
        ensures
            (match r {
                Some((t, a)) => Some((t.0 as int, a as int)),
                None => None,
            }) == chord_source_of(source@, tick.0 as int, self.latch),
    {
        match anchor_at(source, tick) {
            Some(a) => Some((tick, a)),
            None => {
                if !self.latch {
                    return None;
                }
                match last_end_at_or_before(source, tick) {
                    Some(e) => {
                        if e > 0 {
                            let src_tick = PatternTick(e - 1);
                            match anchor_at(source, src_tick) {
                                Some(a) => Some((src_tick, a)),
                                None => None,
                            }
                        } else {
                            None
                        }
                    },
                    None => None,
                }
            },
        }
    }

    /// The tick the step phase counts from: the chord's anchor, or the
    /// pattern start with `continuous_phase`.
    pub fn phase_anchor(&self, anchor: u32) -> (r: u32)
        ensures
            r == (if self.continuous_phase { 0 } else { anchor }),
    {
        if self.continuous_phase {
            0
        } else {
            anchor
        }
    }

    /// Whether `tick` is a step onset for this arpeggiator's integer-grid
    /// rate anchored at `anchor`, and if so (step index, gated duration).
    /// `swing_ticks` and `gated` are the resolved swing delay and step gate.
    pub fn step_onset(&self, anchor: u32, tick: PatternTick, swing_ticks: u32, gated: u32) -> (r: Option<(u32, u32)>)
        requires
            !(self.rate is MilliHz),
            swing_ticks <= rate_ticks(self.rate),
        ensures
            (match r {
                Some((s, d)) => Some((s as int, d as int)),
                None => None,
            }) == grid_onset(anchor as int, tick.0 as int, rate_ticks(self.rate), swing_ticks as int, gated as int),
    {
        let len = self.rate.ticks();
        step_onset_on_grid(anchor, tick, len.0, swing_ticks, gated)
    }

    /// What step `step` of the chord anchored at `anchor` sounds: the held
    /// chord at `source_tick`, viewed through the `upstream` stages, ordered by
    /// the mode, and the member (or whole chord) the step's cycle position
    /// selects. `host_salt` seeds `Random` mode.
    pub fn emit(&self, source: &[Note], source_tick: PatternTick, anchor: u32, upstream: &[HeldStage], step: u32, host_salt: u64) -> (r: Vec<ArpHit>)
        requires
            self.mode == ArpMode::Custom ==> self.custom.len <= 16,
        ensures
            hit_tuples(r@) == arp_hits(*self, source@, source_tick.0 as int, anchor, upstream@, step, host_salt),
    {
        if self.mode == ArpMode::Custom {
            return self.emit_custom(source, source_tick, anchor, upstream, step);
        }
        let mut out: Vec<ArpHit> = Vec::new();
        let held = held_at(source, source_tick, upstream);
        let ghost hp = held_pairs(held@);
        if held.len() == 0 {
            assert(hit_tuples(out@) =~= Seq::<(int, int, int, int)>::empty());
            return out;
        }
        let ord = match self.mode {
            ArpMode::Up | ArpMode::UpDown => order_held(&held, false),
            ArpMode::Down | ArpMode::DownUp => order_held(&held, true),
            _ => held.clone(),
        };
        proof {
            if !(self.mode == ArpMode::Up || self.mode == ArpMode::UpDown || self.mode == ArpMode::Down
                || self.mode == ArpMode::DownUp) {
                assert(held_pairs(ord@) =~= hp);
            }
            assert(held_pairs(ord@) == ordered_for(self.mode, hp));
            assert(ord@.len() == held@.len()) by {
                assert(held_pairs(ord@).len() == ord@.len());
                lemma_ordered_len(hp, true);
                lemma_ordered_len(hp, false);
            }
        }
        let octaves: u32 = if self.octaves < 1 { 1 } else if self.octaves > 4 { 4 } else { self.octaves as u32 };
        let n: u32 = held.len() as u32;
        assert(1 <= n * octaves <= 64) by (nonlinear_arith)
            requires
                1 <= n <= 16,
                1 <= octaves <= 4,
        ;
        let total: u32 = n * octaves;
        if self.mode == ArpMode::Chord {
            let oct: u32 = step % octaves;
            let mut i: usize = 0;
            proof {
                assert(held_pairs(ord@).subrange(0, 0) =~= Seq::<(int, int)>::empty());
                assert(hit_tuples(out@) =~= Seq::<(int, int, int, int)>::empty());
            }
            while i < ord.len()
                invariant
                    i <= ord@.len(),
                    oct < octaves <= 4,
                    octaves == clamp_octaves(self.octaves),
                    hit_tuples(out@) == octave_hits(held_pairs(ord@).subrange(0, i as int), oct as int, octaves as int),
                decreases ord@.len() - i,
            {
                let h = ord[i];
                proof {
                    let pre = held_pairs(ord@).subrange(0, i + 1);
                    assert(pre.drop_last() =~= held_pairs(ord@).subrange(0, i as int));
                    assert(pre.last() == held_pair(h));
                }
                match h.pitch.transpose((12 * oct) as i32) {
                    Some(p) => {
                        let ghost old_out = out@;
                        out.push(ArpHit { pitch: p, velocity: h.velocity, pos: oct, cycle_len: octaves });
                        assert(hit_tuples(out@) =~= hit_tuples(old_out).push(hit_tuple(out@.last())));
                    },
                    None => {},
                }
                i = i + 1;
            }
            proof {
                assert(held_pairs(ord@).subrange(0, ord@.len() as int) =~= held_pairs(ord@));
            }
            return out;
        }
        let is_bounce_mode = self.mode == ArpMode::UpDown || self.mode == ArpMode::DownUp;
        let cyc: u32 = if is_bounce_mode && total > 1 { 2 * total - 2 } else { total };
        let pos: u32 = step % cyc;
        let idx: u32 = if is_bounce_mode && pos >= total {
            2 * total - 2 - pos
        } else if self.mode == ArpMode::Random {
            let draw = splitmix64((step as u64) ^ ((anchor as u64) << 32u64) ^ host_salt);
            (draw % (total as u64)) as u32
        } else {
            pos
        };
        proof {
            assert(idx < total);
            assert(idx / n < octaves) by (nonlinear_arith)
                requires
                    idx < total,
                    total == n * octaves,
                    n >= 1,
            ;
        }
        let member = ord[(idx % n) as usize];
        let octave: u32 = idx / n;
        match member.pitch.transpose((12 * octave) as i32) {
            Some(p) => {
                out.push(ArpHit { pitch: p, velocity: member.velocity, pos, cycle_len: cyc });
                assert(hit_tuples(out@) =~= seq![hit_tuple(out@[0])]);
            },
            None => {
                assert(hit_tuples(out@) =~= Seq::<(int, int, int, int)>::empty());
            },
        }
        out
    }

    /// `Custom` mode: cycle the offset list over the anchor note's pitch.
    fn emit_custom(&self, source: &[Note], source_tick: PatternTick, anchor: u32, upstream: &[HeldStage], step: u32) -> (r: Vec<ArpHit>)
        requires
            self.custom.len <= 16,
        ensures
            hit_tuples(r@) == custom_hits(*self, source@, source_tick.0 as int, anchor, upstream@, step),
    {
        let mut out: Vec<ArpHit> = Vec::new();
        let l: u32 = self.custom.len() as u32;
        if l == 0 {
            assert(hit_tuples(out@) =~= Seq::<(int, int, int, int)>::empty());
            return out;
        }
        let found = anchor_note(source, source_tick, anchor);
        match found {
            None => {
                assert(hit_tuples(out@) =~= Seq::<(int, int, int, int)>::empty());
                out
            },
            Some(an) => {
                let root = upstream_pitch(upstream, an.pitch);
                let octaves: u32 = if self.octaves < 1 { 1 } else if self.octaves > 4 { 4 } else { self.octaves as u32 };
                assert(1 <= l * octaves <= 64) by (nonlinear_arith)
                    requires
                        1 <= l <= 16,
                        1 <= octaves <= 4,
                ;
                let cyc: u32 = l * octaves;
                let pos: u32 = step % cyc;
                let offsets = self.custom.as_slice();
                let base: i8 = offsets[(pos % l) as usize];
                assert(pos / l < octaves) by (nonlinear_arith)
                    requires
                        pos < cyc,
                        cyc == l * octaves,
                        l >= 1,
                ;
                let semis: i32 = base as i32 + 12 * (pos / l) as i32;
                match root.transpose(semis) {
                    Some(p) => {
                        out.push(ArpHit { pitch: p, velocity: an.velocity, pos, cycle_len: cyc });
                        assert(hit_tuples(out@) =~= seq![hit_tuple(out@[0])]);
                    },
                    None => {
                        assert(hit_tuples(out@) =~= Seq::<(int, int, int, int)>::empty());
                    },
                }
                out
            },
        }
    }
}

/// The note anchoring a `Custom` cycle: among the notes sounding at
/// `source_tick` that start at `anchor`, the first of lowest pitch.
fn anchor_note(source: &[Note], source_tick: PatternTick, anchor: u32) -> (r: Option<HeldNote>)
    ensures
        (match r {
            Some(h) => Some(held_pair(h)),
            None => None,
        }) == anchor_note_upto(source@, source@.len() as int, source_tick.0 as int, anchor as int),
{
    let mut best: Option<HeldNote> = None;
    let mut i: usize = 0;
    while i < source.len()
        invariant
            i <= source@.len(),
            (match best {
                Some(h) => Some(held_pair(h)),
                None => None,
            }) == anchor_note_upto(source@, i as int, source_tick.0 as int, anchor as int),
        decreases source@.len() - i,
    {
        let x = source[i];
        let better = match best {
            Some(b) => x.pitch.as_midi() < b.pitch.as_midi(),
            None => true,
        };
        if x.is_playing_at(source_tick) && x.start.0 == anchor && better {
            best = Some(HeldNote { pitch: x.pitch, velocity: x.velocity });
        }
        i = i + 1;
    }
    best
}

/// Sorting keeps the length.
proof fn lemma_ordered_len(s: Seq<(int, int)>, descending: bool)
    ensures
        ordered(s, descending).len() == s.len(),
    decreases s.len(),
{
    if s.len() > 0 {
        lemma_ordered_len(s.drop_last(), descending);
        lemma_insert_ordered_len(ordered(s.drop_last(), descending), s.last(), descending);
    }
}

/// Inserting grows the length by one.
proof fn lemma_insert_ordered_len(s: Seq<(int, int)>, x: (int, int), descending: bool)
    ensures
        insert_ordered(s, x, descending).len() == s.len() + 1,
    decreases s.len(),
{
    if s.len() > 0 {
        lemma_insert_ordered_len(s.drop_last(), x, descending);
    }
}

// ----------------------------------------------------------------------------
// The strummed chord
// ----------------------------------------------------------------------------

/// Insert `x` into the ascending sequence `s` after every entry not greater
/// than it.
pub open spec fn insert_ascending(s: Seq<int>, x: int) -> Seq<int>
    decreases s.len(),
{
    if s.len() == 0 {
        seq![x]
    } else if s.last() <= x {
        s.push(x)
    } else {
        insert_ascending(s.drop_last(), x).push(s.last())
    }
}

/// `s` sorted ascending.
pub open spec fn ascending(s: Seq<int>) -> Seq<int>
    decreases s.len(),
{
    if s.len() == 0 {
        Seq::empty()
    } else {
        insert_ascending(ascending(s.drop_last()), s.last())
    }
}

/// Inserting at `pos`, past the entries not greater than `x` and before the
/// greater ones, is `insert_ascending`.
proof fn lemma_insert_ascending_at(s: Seq<int>, x: int, pos: int)
    requires
        0 <= pos <= s.len(),
        forall|j: int| pos <= j < s.len() ==> s[j] > x,
        pos > 0 ==> s[pos - 1] <= x,
    ensures
        insert_ascending(s, x) == s.insert(pos, x),
    decreases s.len(),
{
    if s.len() == 0 {
        assert(s.insert(pos, x) =~= seq![x]);
    } else if pos == s.len() {
        assert(s.insert(pos, x) =~= s.push(x));
    } else {
        lemma_insert_ascending_at(s.drop_last(), x, pos);
        assert(s.insert(pos, x) =~= s.drop_last().insert(pos, x).push(s.last()));
    }
}

/// The pitches sorted ascending.
fn sort_pitches(ps: &Vec<Pitch>) -> (r: Vec<Pitch>)
    ensures
        midi_of(r@) == ascending(midi_of(ps@)),
        r@.len() == ps@.len(),
{
    let mut out: Vec<Pitch> = Vec::new();
    let mut i: usize = 0;
    proof {
        assert(midi_of(ps@).subrange(0, 0) =~= Seq::<int>::empty());
        assert(midi_of(out@) =~= Seq::<int>::empty());
    }
    while i < ps.len()
        invariant
            i <= ps@.len(),
            midi_of(out@) == ascending(midi_of(ps@).subrange(0, i as int)),
            out@.len() == i,
        decreases ps@.len() - i,
    {
        let x = ps[i];
        let mut pos: usize = out.len();
        while pos > 0
            invariant
                pos <= out@.len(),
                forall|j: int| pos <= j < out@.len() ==> out@[j]@ > x@,
            ensures
                pos <= out@.len(),
                forall|j: int| pos <= j < out@.len() ==> out@[j]@ > x@,
                pos > 0 ==> out@[pos - 1]@ <= x@,
            decreases pos,
        {
            if out[pos - 1].as_midi() <= x.as_midi() {
                break;
            }
            pos = pos - 1;
        }
        proof {
            lemma_insert_ascending_at(midi_of(out@), x@ as int, pos as int);
            let pre = midi_of(ps@).subrange(0, i + 1);
            assert(pre.drop_last() =~= midi_of(ps@).subrange(0, i as int));
            assert(pre.last() == x@ as int);
        }
        let ghost old_out = out@;
        out.insert(pos, x);
        assert(midi_of(out@) =~= midi_of(old_out).insert(pos as int, x@ as int));
        i = i + 1;
    }
    proof {
        assert(midi_of(ps@).subrange(0, ps@.len() as int) =~= midi_of(ps@));
    }
    out
}

/// The tone of a strummed chord `c` that source note `note` sounds at
/// `tick`, if any: tone `j` of the chord built on the note's (upstream
/// transformed) pitch, ordered by the strum direction, sounds `j · strum`
/// ticks after the note's start.
pub open spec fn strum_tone(c: Chord, note: Note, tick: int, stages: Seq<HeldStage>) -> Option<int> {
    let live = c@.len() as int;
    let spread = c.spec_strum().0 as int;
    let delta = tick - note.start.0;
    if live == 0 || delta < 0 || delta % spread != 0 || delta / spread >= live {
        None
    } else {
        let j = delta / spread;
        let tones = ascending(chord_tones(c@, upstream_root(stages, note.pitch@ as int)));
        let ord = if c.spec_direction() == crate::note_processor::StrumDirection::Down {
            tones.reverse()
        } else {
            tones
        };
        if j < ord.len() {
            Some(ord[j])
        } else {
            None
        }
    }
}

/// The tones the first `n` source notes strike at `tick`, as (note index,
/// pitch), in scan order.
pub open spec fn strum_upto(c: Chord, notes: Seq<Note>, n: int, tick: int, stages: Seq<HeldStage>) -> Seq<(int, int)>
    decreases n,
{
    if n <= 0 {
        Seq::empty()
    } else {
        let prev = strum_upto(c, notes, n - 1, tick, stages);
        match strum_tone(c, notes[n - 1], tick, stages) {
            Some(p) => prev.push((n - 1, p)),
            None => prev,
        }
    }
}

/// A strike as (note index, pitch).
pub open spec fn strike_pairs(v: Seq<(usize, Pitch)>) -> Seq<(int, int)> {
    v.map_values(|x: (usize, Pitch)| (x.0 as int, x.1@ as int))
}

impl Chord {
    /// The strummed expansion at `tick`: for each source note (in scan order)
    /// whose strum lands a tone on `tick`, the note's index and that tone.
    /// Only one tone of a note can land on a given tick.
    pub fn strum_at(&self, source: &[Note], tick: PatternTick, upstream: &[HeldStage]) -> (r: Vec<(usize, Pitch)>)
        requires
            self.spec_strum().0 > 0,
        ensures
            strike_pairs(r@) == strum_upto(*self, source@, source@.len() as int, tick.0 as int, upstream@),
    {
        let mut out: Vec<(usize, Pitch)> = Vec::new();
        let live: usize = self.intervals().len();
        let spread: i64 = self.strum().0 as i64;
        let t: i64 = tick.0 as i64;
        let mut i: usize = 0;
        proof {
            assert(strike_pairs(out@) =~= Seq::<(int, int)>::empty());
        }
        while i < source.len()
            invariant
                i <= source@.len(),
                live == self@.len(),
                spread == self.spec_strum().0,
                spread > 0,
                t == tick.0,
                strike_pairs(out@) == strum_upto(*self, source@, i as int, tick.0 as int, upstream@),
            decreases source@.len() - i,
        {
            let note = source[i];
            let delta: i64 = t - note.start.0 as i64;
            if live > 0 && delta >= 0 && delta % spread == 0 && ((delta / spread) as usize) < live {
                let j: usize = (delta / spread) as usize;
                let root = upstream_pitch(upstream, note.pitch);
                let tones = self.tones(root);
                let sorted = sort_pitches(&tones);
                let pick: Option<Pitch> = if self.direction() == crate::note_processor::StrumDirection::Down {
                    if j < sorted.len() {
                        Some(sorted[sorted.len() - 1 - j])
                    } else {
                        None
                    }
                } else {
                    if j < sorted.len() {
                        Some(sorted[j])
                    } else {
                        None
                    }
                };
                proof {
                    let asc = ascending(chord_tones(self@, upstream_root(upstream@, note.pitch@ as int)));
                    assert(midi_of(sorted@) == asc);
                    if j < sorted@.len() {
                        assert(asc.reverse()[j as int] == asc[asc.len() - 1 - j]);
                    }
                }
                match pick {
                    Some(p) => {
                        let ghost old_out = out@;
                        out.push((i, p));
                        assert(strike_pairs(out@) =~= strike_pairs(old_out).push((i as int, p@ as int)));
                    },
                    None => {},
                }
            }
            i = i + 1;
        }
        out
    }
}

} // verus!
