//! Song structure and arrangement.
//!
//! A [`Song`] owns its patterns and tracks, the arrangement (pattern
//! placements on tracks, kept in start order) and the time-signature map.
//! Each placement carries mix settings of type `M` (its transposition and
//! gain), which the arrangement rules never read; the song stamps new
//! placements with a default mix given at construction.
use vstd::prelude::*;

use crate::ids::{InstrumentId, ModGraphId, NoteGraphId, NoteModuleId, PatternId, TrackId};
use crate::mod_grid::{mod_validation, same_mod_shape, ModGraph, ModGraphScope};
use crate::note_graph::{
    conns_repaired, has_note_node, note_validation, same_note_shape, sanitized_upto, with_note_node, NoteConnection,
    NoteGraph, NoteModuleKind, NoteNode, NotePortType, MAX_NOTE_GRID_NODES,
};
use crate::pattern::{same_pattern, same_pattern_but_binding, starts_sorted, Pattern, RowResolution};
use crate::time::{Duration, PatternTick, Tick, TimeSignature};
use crate::track::SequencerTrack;
use vstd::string::StringExecFns;

verus! {

/// The transport loop: playback wraps from `end` back to `start` while
/// `enabled`. A region can be stored while disabled so the bounds survive a
/// toggle.
#[derive(Debug, Clone, Copy, PartialEq, Eq, Structural)]
pub struct LoopRegion {
    /// Loop start position.
    pub start: Tick,
    /// Loop end position (exclusive).
    pub end: Tick,
    /// Whether the loop is active.
    pub enabled: bool,
}

/// Time signature change event.
#[derive(Debug, Clone, Copy, PartialEq, Eq, Structural)]
pub struct TimeSignatureChange {
    /// Position of the time signature change.
    pub tick: Tick,
    /// New time signature.
    pub signature: TimeSignature,
}

/// What a freeze produced: the pattern's note count after the bake, and how
/// many events were dropped during it (a node hitting the per-tick expansion
/// cap).
#[derive(Debug, Clone, Copy, PartialEq, Eq, Structural)]
pub struct FreezeStats {
    /// The pattern's note count after the bake.
    pub notes: usize,
    /// Events dropped during the bake.
    pub dropped: u32,
}

impl Default for FreezeStats {
    fn default() -> (r: Self)
        ensures
            r.notes == 0,
            r.dropped == 0,
    {
        FreezeStats { notes: 0, dropped: 0 }
    }
}

// ----------------------------------------------------------------------------
// Placements
// ----------------------------------------------------------------------------

/// A pattern placement in the arrangement.
#[derive(Debug, Clone, Copy, PartialEq, Eq)]
pub struct PatternPlacement<M> {
    /// Which pattern to play.
    pub pattern_id: PatternId,
    /// Which track this is on.
    pub track_id: TrackId,
    /// Start position in the song.
    pub start: Tick,
    /// Transposition and gain of this placement.
    pub mix: M,
    /// Optional length override: the placement occupies this many ticks
    /// instead of the pattern's own length.
    pub length_override: Option<Duration>,
}

/// The ticks a placement occupies given its pattern's length.
pub open spec fn effective_len<M>(p: PatternPlacement<M>, pattern_length: Duration) -> int {
    match p.length_override {
        Some(d) => d.0 as int,
        None => pattern_length.0 as int,
    }
}

impl<M: Copy> PatternPlacement<M> {
    /// Create a new pattern placement with the given mix and no length
    /// override.
    pub fn new(pattern_id: PatternId, track_id: TrackId, start: Tick, mix: M) -> (r: Self)
        ensures
            r == (PatternPlacement { pattern_id, track_id, start, mix, length_override: None }),
    {
        PatternPlacement { pattern_id, track_id, start, mix, length_override: None }
    }

    /// Set the mix (builder pattern).
    pub fn with_mix(self, mix: M) -> (r: Self)
        ensures
            r == (PatternPlacement { mix, ..self }),
    {
        PatternPlacement { mix, ..self }
    }

    /// Effective length (override if set, otherwise the pattern's length).
    pub fn effective_length(&self, pattern_length: Duration) -> (r: Duration)
        ensures
            r.0 == effective_len(*self, pattern_length),
    {
        match self.length_override {
            Some(d) => d,
            None => pattern_length,
        }
    }

    /// End position: the start plus the effective length.
    pub fn end(&self, pattern_length: Duration) -> (r: Tick)
        requires
            self.start.0 + effective_len(*self, pattern_length) <= u64::MAX,
        ensures
            r.0 == self.start.0 + effective_len(*self, pattern_length),
    {
        let len = self.effective_length(pattern_length);
        Tick(self.start.0 + len.0 as u64)
    }
}

// ----------------------------------------------------------------------------
// Lookup helpers
// ----------------------------------------------------------------------------

/// The index of the first element of `s` satisfying `p`, or -1.
pub open spec fn first_index<A>(s: Seq<A>, p: spec_fn(A) -> bool) -> int
    decreases s.len(),
{
    if s.len() == 0 {
        -1
    } else {
        let i = first_index(s.drop_last(), p);
        if i >= 0 {
            i
        } else if p(s.last()) {
            s.len() - 1
        } else {
            -1
        }
    }
}

/// `first_index` finds the first match, and -1 means there is none.
pub proof fn lemma_first_index<A>(s: Seq<A>, p: spec_fn(A) -> bool)
    ensures
        -1 <= first_index(s, p) < s.len(),
        first_index(s, p) == -1 <==> forall|k: int| 0 <= k < s.len() ==> !p(#[trigger] s[k]),
        first_index(s, p) >= 0 ==> p(s[first_index(s, p)]),
        forall|k: int| 0 <= k < first_index(s, p) ==> !p(#[trigger] s[k]),
    decreases s.len(),
{
    if s.len() > 0 {
        lemma_first_index(s.drop_last(), p);
        assert forall|k: int| 0 <= k < s.len() - 1 implies #[trigger] s[k] == s.drop_last()[k] by {}
    }
}

/// A scan that found no match in `s[0..i]` and a match at `i` found the first.
proof fn lemma_first_index_at<A>(s: Seq<A>, p: spec_fn(A) -> bool, i: int)
    requires
        0 <= i < s.len(),
        p(s[i]),
        forall|k: int| 0 <= k < i ==> !p(#[trigger] s[k]),
    ensures
        first_index(s, p) == i,
{
    lemma_first_index(s, p);
}

/// Patterns with this id.
pub open spec fn pattern_is<M>(id: PatternId) -> spec_fn(Pattern) -> bool {
    |p: Pattern| p.spec_id() == id
}

/// Tracks with this id.
pub open spec fn track_is(id: TrackId) -> spec_fn(SequencerTrack) -> bool {
    |t: SequencerTrack| t.id == id
}

/// Placements of this pattern on this track at this start.
pub open spec fn placement_is<M>(pattern_id: PatternId, track_id: TrackId, start: Tick) -> spec_fn(PatternPlacement<M>) -> bool {
    |p: PatternPlacement<M>| p.pattern_id == pattern_id && p.track_id == track_id && p.start == start
}

/// The placements are in start order.
pub open spec fn placements_sorted<M>(a: Seq<PatternPlacement<M>>) -> bool {
    forall|i: int, j: int| 0 <= i < j < a.len() ==> a[i].start.0 <= a[j].start.0
}

/// The number of leading placements starting at or before `start`.
pub open spec fn placement_point<M>(a: Seq<PatternPlacement<M>>, start: int) -> int
    decreases a.len(),
{
    if a.len() == 0 {
        0
    } else if a.last().start.0 <= start {
        a.len() as int
    } else {
        placement_point(a.drop_last(), start)
    }
}

/// In a sorted arrangement the insertion point splits it into the
/// placements starting at or before `start` and those starting after.
proof fn lemma_placement_point<M>(a: Seq<PatternPlacement<M>>, start: int, q: int)
    requires
        placements_sorted(a),
        0 <= q <= a.len(),
        forall|k: int| 0 <= k < q ==> a[k].start.0 <= start,
        forall|k: int| q <= k < a.len() ==> a[k].start.0 > start,
    ensures
        placement_point(a, start) == q,
    decreases a.len(),
{
    if a.len() > 0 && q < a.len() {
        lemma_placement_point(a.drop_last(), start, q);
    }
}

/// Inserting at the insertion point keeps the arrangement sorted.
proof fn lemma_insert_sorted<M>(a: Seq<PatternPlacement<M>>, x: PatternPlacement<M>, q: int)
    requires
        placements_sorted(a),
        0 <= q <= a.len(),
        forall|k: int| 0 <= k < q ==> a[k].start.0 <= x.start.0,
        forall|k: int| q <= k < a.len() ==> a[k].start.0 >= x.start.0,
    ensures
        placements_sorted(a.insert(q, x)),
{
    let b = a.insert(q, x);
    assert forall|i: int, j: int| 0 <= i < j < b.len() implies b[i].start.0 <= b[j].start.0 by {
        if i < q && j > q {
            assert(b[i] == a[i]);
            assert(b[j] == a[j - 1]);
        }
    }
}

/// The placements of `a` not satisfying `drop`, in order.
pub open spec fn without<M>(a: Seq<PatternPlacement<M>>, drop: spec_fn(PatternPlacement<M>) -> bool) -> Seq<PatternPlacement<M>> {
    a.filter(|p: PatternPlacement<M>| !drop(p))
}


/// Every element kept by a filter is an element of the original sequence,
/// bounded in the same way.
proof fn lemma_filter_elements<M>(a: Seq<PatternPlacement<M>>, keep: spec_fn(PatternPlacement<M>) -> bool)
    ensures
        forall|i: int| 0 <= i < a.filter(keep).len() ==> exists|j: int| 0 <= j < a.len() && #[trigger] a.filter(keep)[i] == a[j],
        forall|i: int| 0 <= i < a.filter(keep).len() ==> keep(#[trigger] a.filter(keep)[i]),
    decreases a.len(),
{
    reveal(Seq::filter);
    if a.len() > 0 {
        lemma_filter_elements(a.drop_last(), keep);
        let f = a.filter(keep);
        let g = a.drop_last().filter(keep);
        assert forall|i: int| 0 <= i < f.len() implies exists|j: int| 0 <= j < a.len() && #[trigger] f[i] == a[j] by {
            if i < g.len() {
                let j = choose|j: int| 0 <= j < a.drop_last().len() && #[trigger] g[i] == a.drop_last()[j];
                assert(f[i] == a[j]);
            } else {
                assert(f[i] == a[a.len() - 1]);
            }
        }
        assert forall|i: int| 0 <= i < f.len() implies keep(#[trigger] f[i]) by {
            if i < g.len() {
                assert(f[i] == g[i]);
            }
        }
    }
}

/// Filtering keeps a sorted arrangement sorted.
proof fn lemma_filter_sorted<M>(a: Seq<PatternPlacement<M>>, keep: spec_fn(PatternPlacement<M>) -> bool)
    requires
        placements_sorted(a),
    ensures
        placements_sorted(a.filter(keep)),
    decreases a.len(),
{
    reveal(Seq::filter);
    if a.len() > 0 {
        let d = a.drop_last();
        assert(placements_sorted(d));
        lemma_filter_sorted(d, keep);
        lemma_filter_elements(d, keep);
        let g = d.filter(keep);
        if keep(a.last()) {
            let f = g.push(a.last());
            assert forall|i: int, j: int| 0 <= i < j < f.len() implies f[i].start.0 <= f[j].start.0 by {
                if j == f.len() - 1 {
                    let k = choose|k: int| 0 <= k < d.len() && #[trigger] g[i] == d[k];
                    assert(d[k] == a[k]);
                }
            }
        }
    }
}

/// Placements not of pattern `id`.
pub open spec fn not_of_pattern<M>(id: PatternId) -> spec_fn(PatternPlacement<M>) -> bool {
    |p: PatternPlacement<M>| p.pattern_id != id
}

/// Placements not on track `id`.
pub open spec fn not_on_track<M>(id: TrackId) -> spec_fn(PatternPlacement<M>) -> bool {
    |p: PatternPlacement<M>| p.track_id != id
}

/// The placements of `a` that are not of pattern `id`, in order.
fn without_pattern<M: Copy>(a: &Vec<PatternPlacement<M>>, id: PatternId) -> (r: Vec<PatternPlacement<M>>)
    ensures
        r@ == a@.filter(not_of_pattern::<M>(id)),
{
    let ghost keep = not_of_pattern::<M>(id);
    let mut out: Vec<PatternPlacement<M>> = Vec::new();
    let mut i: usize = 0;
    proof {
        reveal(Seq::filter);
        assert(a@.subrange(0, 0).filter(keep) =~= Seq::<PatternPlacement<M>>::empty());
    }
    while i < a.len()
        invariant
            i <= a@.len(),
            keep == not_of_pattern::<M>(id),
            out@ == a@.subrange(0, i as int).filter(keep),
        decreases a@.len() - i,
    {
        let p = a[i];
        proof {
            reveal(Seq::filter);
            let pre = a@.subrange(0, i + 1);
            assert(pre.drop_last() =~= a@.subrange(0, i as int));
            assert(pre.last() == p);
        }
        if p.pattern_id != id {
            out.push(p);
        }
        i = i + 1;
    }
    proof {
        assert(a@.subrange(0, a@.len() as int) =~= a@);
    }
    out
}

/// The placements of `a` that are not on track `id`, in order.
fn without_track<M: Copy>(a: &Vec<PatternPlacement<M>>, id: TrackId) -> (r: Vec<PatternPlacement<M>>)
    ensures
        r@ == a@.filter(not_on_track::<M>(id)),
{
    let ghost keep = not_on_track::<M>(id);
    let mut out: Vec<PatternPlacement<M>> = Vec::new();
    let mut i: usize = 0;
    proof {
        reveal(Seq::filter);
        assert(a@.subrange(0, 0).filter(keep) =~= Seq::<PatternPlacement<M>>::empty());
    }
    while i < a.len()
        invariant
            i <= a@.len(),
            keep == not_on_track::<M>(id),
            out@ == a@.subrange(0, i as int).filter(keep),
        decreases a@.len() - i,
    {
        let p = a[i];
        proof {
            reveal(Seq::filter);
            let pre = a@.subrange(0, i + 1);
            assert(pre.drop_last() =~= a@.subrange(0, i as int));
            assert(pre.last() == p);
        }
        if p.track_id != id {
            out.push(p);
        }
        i = i + 1;
    }
    proof {
        assert(a@.subrange(0, a@.len() as int) =~= a@);
    }
    out
}


/// The placement's end given the song's patterns: its start plus its
/// effective length when its pattern exists (`None` otherwise).
pub open spec fn placement_end<M>(ps: Seq<Pattern>, p: PatternPlacement<M>) -> Option<int> {
    let i = first_index(ps, pattern_is::<M>(p.pattern_id));
    if i >= 0 {
        Some(p.start.0 + effective_len(p, ps[i].spec_length()))
    } else {
        None
    }
}

/// The length of an arrangement prefix: the latest end among its first `n`
/// placements whose pattern exists (0 when none).
pub open spec fn length_upto<M>(ps: Seq<Pattern>, a: Seq<PatternPlacement<M>>, n: int) -> int
    decreases n,
{
    if n <= 0 {
        0
    } else {
        let prev = length_upto(ps, a, n - 1);
        match placement_end(ps, a[n - 1]) {
            Some(e) => if e > prev { e } else { prev },
            None => prev,
        }
    }
}

/// The insertion point of `start` in `a`, found by scanning from the back.
fn placement_insert_point<M: Copy>(a: &Vec<PatternPlacement<M>>, start: Tick) -> (r: usize)
    ensures
        r == placement_point(a@, start.0 as int),
        r <= a@.len(),
{
    let mut pos: usize = a.len();
    proof {
        assert(a@.subrange(0, a@.len() as int) =~= a@);
    }
    while pos > 0
        invariant
            pos <= a@.len(),
            placement_point(a@, start.0 as int) == placement_point(a@.subrange(0, pos as int), start.0 as int),
        ensures
            pos <= a@.len(),
            placement_point(a@, start.0 as int) == placement_point(a@.subrange(0, pos as int), start.0 as int),
            pos > 0 ==> a@[pos - 1].start.0 <= start.0,
        decreases pos,
    {
        if a[pos - 1].start.0 <= start.0 {
            break;
        }
        proof {
            let sub = a@.subrange(0, pos as int);
            assert(sub.drop_last() =~= a@.subrange(0, pos - 1));
        }
        pos = pos - 1;
    }
    proof {
        let sub = a@.subrange(0, pos as int);
        if pos > 0 {
            assert(sub.last() == a@[pos - 1]);
        }
    }
    pos
}

/// The first placement index of pattern `id` on track `track` at `start`.
fn find_placement<M: Copy>(a: &Vec<PatternPlacement<M>>, pattern_id: PatternId, track_id: TrackId, start: Tick) -> (r: Option<usize>)
    ensures
        match r {
            Some(i) => i == first_index(a@, placement_is::<M>(pattern_id, track_id, start)),
            None => first_index(a@, placement_is::<M>(pattern_id, track_id, start)) == -1,
        },
{
    let mut i: usize = 0;
    while i < a.len()
        invariant
            i <= a@.len(),
            forall|k: int| 0 <= k < i ==> !placement_is::<M>(pattern_id, track_id, start)(#[trigger] a@[k]),
        decreases a@.len() - i,
    {
        let p = a[i];
        if p.pattern_id == pattern_id && p.track_id == track_id && p.start.0 == start.0 {
            proof {
                lemma_first_index_at(a@, placement_is::<M>(pattern_id, track_id, start), i as int);
            }
            return Some(i);
        }
        i = i + 1;
    }
    proof {
        lemma_first_index(a@, placement_is::<M>(pattern_id, track_id, start));
    }
    None
}

/// Removing a placement keeps the arrangement sorted.
proof fn lemma_remove_sorted<M>(a: Seq<PatternPlacement<M>>, i: int)
    requires
        placements_sorted(a),
        0 <= i < a.len(),
    ensures
        placements_sorted(a.remove(i)),
{
    let b = a.remove(i);
    assert forall|x: int, y: int| 0 <= x < y < b.len() implies b[x].start.0 <= b[y].start.0 by {
        let x2 = if x < i { x } else { x + 1 };
        let y2 = if y < i { y } else { y + 1 };
        assert(b[x] == a[x2]);
        assert(b[y] == a[y2]);
    }
}

/// A sorted arrangement splits at its insertion point.
proof fn lemma_point_splits<M>(a: Seq<PatternPlacement<M>>, start: int)
    requires
        placements_sorted(a),
    ensures
        0 <= placement_point(a, start) <= a.len(),
        forall|k: int| 0 <= k < placement_point(a, start) ==> (#[trigger] a[k]).start.0 <= start,
        forall|k: int| placement_point(a, start) <= k < a.len() ==> (#[trigger] a[k]).start.0 > start,
    decreases a.len(),
{
    if a.len() > 0 {
        let d = a.drop_last();
        assert(placements_sorted(d));
        lemma_point_splits(d, start);
        if a.last().start.0 <= start {
            assert forall|k: int| 0 <= k < a.len() implies (#[trigger] a[k]).start.0 <= start by {
                if k < a.len() - 1 {
                    assert(a[k].start.0 <= a[a.len() - 1].start.0);
                }
            }
        } else {
            assert forall|k: int| placement_point(a, start) <= k < a.len() implies (#[trigger] a[k]).start.0 > start by {
                if k < a.len() - 1 {
                    assert(a[k] == d[k]);
                }
            }
            assert forall|k: int| 0 <= k < placement_point(a, start) implies (#[trigger] a[k]).start.0 <= start by {
                assert(a[k] == d[k]);
            }
        }
    }
}


/// The number of leading placements starting strictly before `start` (in a
/// sorted arrangement).
pub open spec fn lower_point<M>(a: Seq<PatternPlacement<M>>, start: int) -> int
    decreases a.len(),
{
    if a.len() == 0 {
        0
    } else if a.last().start.0 < start {
        a.len() as int
    } else {
        lower_point(a.drop_last(), start)
    }
}

/// A sorted arrangement splits at its strict insertion point.
proof fn lemma_lower_splits<M>(a: Seq<PatternPlacement<M>>, start: int)
    requires
        placements_sorted(a),
    ensures
        0 <= lower_point(a, start) <= placement_point(a, start) <= a.len(),
        forall|k: int| 0 <= k < lower_point(a, start) ==> (#[trigger] a[k]).start.0 < start,
        forall|k: int| lower_point(a, start) <= k < a.len() ==> (#[trigger] a[k]).start.0 >= start,
    decreases a.len(),
{
    if a.len() > 0 {
        let d = a.drop_last();
        assert(placements_sorted(d));
        lemma_lower_splits(d, start);
        lemma_point_splits(a, start);
        if a.last().start.0 < start {
            assert forall|k: int| 0 <= k < a.len() implies (#[trigger] a[k]).start.0 < start by {
                if k < a.len() - 1 {
                    assert(a[k].start.0 <= a[a.len() - 1].start.0);
                }
            }
        } else {
            assert forall|k: int| lower_point(a, start) <= k < a.len() implies (#[trigger] a[k]).start.0 >= start by {
                if k < a.len() - 1 {
                    assert(a[k] == d[k]);
                }
            }
            assert forall|k: int| 0 <= k < lower_point(a, start) implies (#[trigger] a[k]).start.0 < start by {
                assert(a[k] == d[k]);
            }
        }
    }
}

/// The strict insertion point of `start` in `a`, scanning from the back.
fn placement_lower_point<M: Copy>(a: &Vec<PatternPlacement<M>>, start: Tick) -> (r: usize)
    ensures
        r == lower_point(a@, start.0 as int),
        r <= a@.len(),
{
    let mut pos: usize = a.len();
    proof {
        assert(a@.subrange(0, a@.len() as int) =~= a@);
    }
    while pos > 0
        invariant
            pos <= a@.len(),
            lower_point(a@, start.0 as int) == lower_point(a@.subrange(0, pos as int), start.0 as int),
        ensures
            pos <= a@.len(),
            lower_point(a@, start.0 as int) == lower_point(a@.subrange(0, pos as int), start.0 as int),
            pos > 0 ==> a@[pos - 1].start.0 < start.0,
        decreases pos,
    {
        if a[pos - 1].start.0 < start.0 {
            break;
        }
        proof {
            let sub = a@.subrange(0, pos as int);
            assert(sub.drop_last() =~= a@.subrange(0, pos - 1));
        }
        pos = pos - 1;
    }
    proof {
        let sub = a@.subrange(0, pos as int);
        if pos > 0 {
            assert(sub.last() == a@[pos - 1]);
        }
    }
    pos
}

/// Time-signature changes not at `tick`.
pub open spec fn not_at(tick: Tick) -> spec_fn(TimeSignatureChange) -> bool {
    |c: TimeSignatureChange| c.tick != tick
}

/// The number of leading changes at or before `tick`.
pub open spec fn signature_point(cs: Seq<TimeSignatureChange>, tick: int) -> int
    decreases cs.len(),
{
    if cs.len() == 0 {
        0
    } else if cs.last().tick.0 <= tick {
        cs.len() as int
    } else {
        signature_point(cs.drop_last(), tick)
    }
}

/// In a sorted change list the point splits the changes at or before `tick`
/// from the later ones.
proof fn lemma_signature_point_splits(cs: Seq<TimeSignatureChange>, tick: int)
    requires
        signatures_sorted(cs),
    ensures
        0 <= signature_point(cs, tick) <= cs.len(),
        forall|k: int| 0 <= k < signature_point(cs, tick) ==> (#[trigger] cs[k]).tick.0 <= tick,
        forall|k: int| signature_point(cs, tick) <= k < cs.len() ==> (#[trigger] cs[k]).tick.0 > tick,
    decreases cs.len(),
{
    if cs.len() > 0 {
        let d = cs.drop_last();
        assert(signatures_sorted(d));
        lemma_signature_point_splits(d, tick);
        if cs.last().tick.0 <= tick {
            assert forall|k: int| 0 <= k < cs.len() implies (#[trigger] cs[k]).tick.0 <= tick by {
                if k < cs.len() - 1 {
                    assert(cs[k].tick.0 < cs[cs.len() - 1].tick.0);
                }
            }
        } else {
            assert forall|k: int| signature_point(cs, tick) <= k < cs.len() implies (#[trigger] cs[k]).tick.0 > tick by {
                if k < cs.len() - 1 {
                    assert(cs[k] == d[k]);
                }
            }
            assert forall|k: int| 0 <= k < signature_point(cs, tick) implies (#[trigger] cs[k]).tick.0 <= tick by {
                assert(cs[k] == d[k]);
            }
        }
    }
}

/// The point is the unique split of a sorted list.
proof fn lemma_signature_point_is(cs: Seq<TimeSignatureChange>, tick: int, q: int)
    requires
        signatures_sorted(cs),
        0 <= q <= cs.len(),
        forall|k: int| 0 <= k < q ==> cs[k].tick.0 <= tick,
        forall|k: int| q <= k < cs.len() ==> cs[k].tick.0 > tick,
    ensures
        signature_point(cs, tick) == q,
    decreases cs.len(),
{
    if cs.len() > 0 && q < cs.len() {
        let d = cs.drop_last();
        assert(signatures_sorted(d));
        lemma_signature_point_is(d, tick, q);
    }
}

/// Every change kept by a filter comes from the original list.
proof fn lemma_signature_filter(cs: Seq<TimeSignatureChange>, keep: spec_fn(TimeSignatureChange) -> bool)
    requires
        signatures_sorted(cs),
    ensures
        signatures_sorted(cs.filter(keep)),
        forall|i: int| 0 <= i < cs.filter(keep).len() ==> keep(#[trigger] cs.filter(keep)[i]),
        forall|i: int| 0 <= i < cs.filter(keep).len() ==> exists|j: int| 0 <= j < cs.len() && #[trigger] cs.filter(keep)[i] == cs[j],
    decreases cs.len(),
{
    reveal(Seq::filter);
    if cs.len() > 0 {
        let d = cs.drop_last();
        assert(signatures_sorted(d));
        lemma_signature_filter(d, keep);
        let g = d.filter(keep);
        let f = cs.filter(keep);
        assert forall|i: int| 0 <= i < f.len() implies exists|j: int| 0 <= j < cs.len() && #[trigger] f[i] == cs[j] by {
            if i < g.len() {
                let j = choose|j: int| 0 <= j < d.len() && #[trigger] g[i] == d[j];
                assert(f[i] == cs[j]);
            } else {
                assert(f[i] == cs[cs.len() - 1]);
            }
        }
        assert forall|i: int| 0 <= i < f.len() implies keep(#[trigger] f[i]) by {
            if i < g.len() {
                assert(f[i] == g[i]);
            }
        }
        if keep(cs.last()) {
            assert forall|i: int, j: int| 0 <= i < j < f.len() implies f[i].tick.0 < f[j].tick.0 by {
                if j == f.len() - 1 {
                    let k = choose|k: int| 0 <= k < d.len() && #[trigger] g[i] == d[k];
                    assert(d[k] == cs[k]);
                }
            }
        }
    }
}

/// Arrangements that place pattern `id` somewhere.
pub open spec fn uses_pattern<M>(a: Seq<PatternPlacement<M>>, id: PatternId) -> bool {
    exists|k: int| 0 <= k < a.len() && (#[trigger] a[k]).pattern_id == id
}

/// Arrangements that place something on track `id`.
pub open spec fn uses_track<M>(a: Seq<PatternPlacement<M>>, id: TrackId) -> bool {
    exists|k: int| 0 <= k < a.len() && (#[trigger] a[k]).track_id == id
}

/// The instruments of the tracks, each once, in first-seen order.
pub open spec fn distinct_instruments(ts: Seq<SequencerTrack>) -> Seq<InstrumentId>
    decreases ts.len(),
{
    if ts.len() == 0 {
        Seq::empty()
    } else {
        let prev = distinct_instruments(ts.drop_last());
        if prev.contains(ts.last().instrument) {
            prev
        } else {
            prev.push(ts.last().instrument)
        }
    }
}

fn arrangement_uses_pattern<M: Copy>(a: &Vec<PatternPlacement<M>>, id: PatternId) -> (r: bool)
    ensures
        r == uses_pattern(a@, id),
{
    let mut i: usize = 0;
    while i < a.len()
        invariant
            i <= a@.len(),
            forall|k: int| 0 <= k < i ==> (#[trigger] a@[k]).pattern_id != id,
        decreases a@.len() - i,
    {
        if a[i].pattern_id == id {
            return true;
        }
        i = i + 1;
    }
    false
}

fn arrangement_uses_track<M: Copy>(a: &Vec<PatternPlacement<M>>, id: TrackId) -> (r: bool)
    ensures
        r == uses_track(a@, id),
{
    let mut i: usize = 0;
    while i < a.len()
        invariant
            i <= a@.len(),
            forall|k: int| 0 <= k < i ==> (#[trigger] a@[k]).track_id != id,
        decreases a@.len() - i,
    {
        if a[i].track_id == id {
            return true;
        }
        i = i + 1;
    }
    false
}

// ----------------------------------------------------------------------------
// The song
// ----------------------------------------------------------------------------

/// Pattern ids are distinct and below `next`.
pub open spec fn patterns_wf(ps: Seq<Pattern>, next: u32) -> bool {
    &&& forall|i: int, j: int| 0 <= i < j < ps.len() ==> ps[i].spec_id() != ps[j].spec_id()
    &&& forall|i: int| 0 <= i < ps.len() ==> (#[trigger] ps[i]).spec_id().0 < next
}

/// Track ids are distinct and below `next`.
pub open spec fn tracks_wf(ts: Seq<SequencerTrack>, next: u16) -> bool {
    &&& forall|i: int, j: int| 0 <= i < j < ts.len() ==> ts[i].id != ts[j].id
    &&& forall|i: int| 0 <= i < ts.len() ==> (#[trigger] ts[i]).id.0 < next
}

/// Time-signature changes in strictly increasing tick order.
pub open spec fn signatures_sorted(cs: Seq<TimeSignatureChange>) -> bool {
    forall|i: int, j: int| 0 <= i < j < cs.len() ==> cs[i].tick.0 < cs[j].tick.0
}

/// Note Grid graph ids are distinct and below `next`.
pub open spec fn note_pool_wf<N>(gs: Seq<NoteGraph<N>>, next: u32) -> bool {
    &&& forall|i: int, j: int| 0 <= i < j < gs.len() ==> gs[i].spec_id() != gs[j].spec_id()
    &&& forall|i: int| 0 <= i < gs.len() ==> (#[trigger] gs[i]).spec_id().0 < next
}

/// Mod Grid graph ids are distinct and below `next`.
pub open spec fn mod_pool_wf<D>(gs: Seq<ModGraph<D>>, next: u32) -> bool {
    &&& forall|i: int, j: int| 0 <= i < j < gs.len() ==> gs[i].spec_id() != gs[j].spec_id()
    &&& forall|i: int| 0 <= i < gs.len() ==> (#[trigger] gs[i]).spec_id().0 < next
}

/// Note Grid graphs with this id.
pub open spec fn note_graph_is<N>(id: NoteGraphId) -> spec_fn(NoteGraph<N>) -> bool {
    |g: NoteGraph<N>| g.spec_id() == id
}

/// Mod Grid graphs with this id.
pub open spec fn mod_graph_is<D>(id: ModGraphId) -> spec_fn(ModGraph<D>) -> bool {
    |g: ModGraph<D>| g.spec_id() == id
}

/// The songs' graph pools, their next ids and the Mod Grid generation agree.
pub open spec fn same_pools<M: Copy, N, D>(a: Song<M, N, D>, b: Song<M, N, D>) -> bool {
    &&& a.spec_note_graphs() == b.spec_note_graphs()
    &&& a.spec_next_note_graph_id() == b.spec_next_note_graph_id()
    &&& a.spec_mod_graphs() == b.spec_mod_graphs()
    &&& a.spec_next_mod_graph_id() == b.spec_next_mod_graph_id()
    &&& a.spec_mod_generation() == b.spec_mod_generation()
}

/// The songs agree on everything but their graph pools.
pub open spec fn same_song<M: Copy, N, D>(a: Song<M, N, D>, b: Song<M, N, D>) -> bool {
    &&& a.spec_patterns() == b.spec_patterns()
    &&& a.spec_next_pattern_id() == b.spec_next_pattern_id()
    &&& a.spec_tracks() == b.spec_tracks()
    &&& a.spec_next_track_id() == b.spec_next_track_id()
    &&& a.spec_arrangement() == b.spec_arrangement()
    &&& a.spec_signatures() == b.spec_signatures()
    &&& a.spec_generation() == b.spec_generation()
    &&& a.spec_loop() == b.spec_loop()
    &&& a.spec_name() == b.spec_name()
    &&& a.spec_author() == b.spec_author()
    &&& a.spec_description() == b.spec_description()
    &&& a.spec_default_signature() == b.spec_default_signature()
    &&& a.spec_row_resolution() == b.spec_row_resolution()
    &&& a.spec_default_mix() == b.spec_default_mix()
}

/// A complete song with patterns, tracks, arrangement and time signatures.
/// `M` is the mix setting each placement carries; `N` and `D` are the node
/// configurations of its pooled Note Grid and Mod Grid graphs.
pub struct Song<M, N, D> {
    name: String,
    author: String,
    description: String,
    patterns: Vec<Pattern>,
    next_pattern_id: u32,
    tracks: Vec<SequencerTrack>,
    next_track_id: u16,
    arrangement: Vec<PatternPlacement<M>>,
    time_signature_changes: Vec<TimeSignatureChange>,
    default_time_signature: TimeSignature,
    row_resolution: RowResolution,
    default_mix: M,
    transport_loop: Option<LoopRegion>,
    structure_generation: u64,
    note_graphs: Vec<NoteGraph<N>>,
    next_note_graph_id: u32,
    mod_graphs: Vec<ModGraph<D>>,
    next_mod_graph_id: u32,
    mod_grid_generation: u64,
}

impl<M: Copy, N, D> Song<M, N, D> {
    /// Song name.
    pub closed spec fn spec_name(&self) -> Seq<char> {
        self.name@
    }

    /// Song author.
    pub closed spec fn spec_author(&self) -> Seq<char> {
        self.author@
    }

    /// Free-text description of intent (mood, purpose, production notes).
    pub closed spec fn spec_description(&self) -> Seq<char> {
        self.description@
    }

    /// Time signature before the first change.
    pub closed spec fn spec_default_signature(&self) -> TimeSignature {
        self.default_time_signature
    }

    /// Row resolution for the pattern grid and quantization.
    pub closed spec fn spec_row_resolution(&self) -> RowResolution {
        self.row_resolution
    }

    /// The patterns, in creation order.
    pub closed spec fn spec_patterns(&self) -> Seq<Pattern> {
        self.patterns@
    }

    /// The id the next created pattern receives.
    pub closed spec fn spec_next_pattern_id(&self) -> u32 {
        self.next_pattern_id
    }

    /// The tracks, in display order.
    pub closed spec fn spec_tracks(&self) -> Seq<SequencerTrack> {
        self.tracks@
    }

    /// The id the next created track receives.
    pub closed spec fn spec_next_track_id(&self) -> u16 {
        self.next_track_id
    }

    /// The placements, in start order.
    pub closed spec fn spec_arrangement(&self) -> Seq<PatternPlacement<M>> {
        self.arrangement@
    }

    /// The time-signature changes, in tick order.
    pub closed spec fn spec_signatures(&self) -> Seq<TimeSignatureChange> {
        self.time_signature_changes@
    }

    /// The mix new placements get.
    pub closed spec fn spec_default_mix(&self) -> M {
        self.default_mix
    }

    /// The persisted transport loop.
    pub closed spec fn spec_loop(&self) -> Option<LoopRegion> {
        self.transport_loop
    }

    /// The structural generation counter.
    pub closed spec fn spec_generation(&self) -> u64 {
        self.structure_generation
    }

    /// The pooled Note Grid graphs, in insertion order.
    pub closed spec fn spec_note_graphs(&self) -> Seq<NoteGraph<N>> {
        self.note_graphs@
    }

    /// The id the next created Note Grid graph receives.
    pub closed spec fn spec_next_note_graph_id(&self) -> u32 {
        self.next_note_graph_id
    }

    /// The pooled Mod Grid graphs, in insertion order.
    pub closed spec fn spec_mod_graphs(&self) -> Seq<ModGraph<D>> {
        self.mod_graphs@
    }

    /// The id the next created Mod Grid graph receives.
    pub closed spec fn spec_next_mod_graph_id(&self) -> u32 {
        self.next_mod_graph_id
    }

    /// The Mod Grid generation counter.
    pub closed spec fn spec_mod_generation(&self) -> u64 {
        self.mod_grid_generation
    }

    /// Well-formed graph pools: in each pool, ids are distinct and below the
    /// next id to hand out.
    pub open spec fn pools_wf(&self) -> bool {
        &&& note_pool_wf(self.spec_note_graphs(), self.spec_next_note_graph_id())
        &&& mod_pool_wf(self.spec_mod_graphs(), self.spec_next_mod_graph_id())
    }

    /// A well-formed song: pattern ids and track ids are distinct and below
    /// the next id to hand out, the arrangement is in start order, and the
    /// time-signature changes are in strictly increasing tick order.
    pub open spec fn wf(&self) -> bool {
        &&& patterns_wf(self.spec_patterns(), self.spec_next_pattern_id())
        &&& tracks_wf(self.spec_tracks(), self.spec_next_track_id())
        &&& placements_sorted(self.spec_arrangement())
        &&& signatures_sorted(self.spec_signatures())
    }

    /// Create a new empty song; new placements get `default_mix`.
    pub fn new(name: String, default_mix: M) -> (r: Self)
        ensures
            r.wf(),
            r.spec_name() == name@,
            r.spec_author().len() == 0,
            r.spec_description().len() == 0,
            r.spec_patterns().len() == 0,
            r.spec_next_pattern_id() == 0,
            r.spec_tracks().len() == 0,
            r.spec_next_track_id() == 0,
            r.spec_arrangement().len() == 0,
            r.spec_signatures().len() == 0,
            r.spec_default_signature() == (TimeSignature { numerator: 4, denominator: 4 }),
            r.spec_default_mix() == default_mix,
            r.spec_loop() is None,
            r.spec_generation() == 0,
            r.spec_note_graphs().len() == 0,
            r.spec_next_note_graph_id() == 0,
            r.spec_mod_graphs().len() == 0,
            r.spec_next_mod_graph_id() == 0,
            r.spec_mod_generation() == 0,
            r.pools_wf(),
    {
        Song {
            name,
            author: String::new(),
            description: String::new(),
            patterns: Vec::new(),
            next_pattern_id: 0,
            tracks: Vec::new(),
            next_track_id: 0,
            arrangement: Vec::new(),
            time_signature_changes: Vec::new(),
            default_time_signature: TimeSignature::common(),
            row_resolution: RowResolution::default(),
            default_mix,
            transport_loop: None,
            structure_generation: 0,
            note_graphs: Vec::new(),
            next_note_graph_id: 0,
            mod_graphs: Vec::new(),
            next_mod_graph_id: 0,
            mod_grid_generation: 0,
        }
    }

    /// Song name.
    pub fn name(&self) -> (r: &String)
        ensures
            r@ == self.spec_name(),
    {
        &self.name
    }

    /// Rename the song.
    pub fn set_name(&mut self, name: String)
        ensures
            final(self).spec_generation() == old(self).spec_generation(),
            same_pools(*old(self), *final(self)),
            final(self).spec_name() == name@,
            final(self).spec_author() == old(self).spec_author(),
            final(self).spec_description() == old(self).spec_description(),
            final(self).spec_patterns() == old(self).spec_patterns(),
            final(self).spec_tracks() == old(self).spec_tracks(),
            final(self).spec_arrangement() == old(self).spec_arrangement(),
            final(self).spec_signatures() == old(self).spec_signatures(),
            final(self).spec_next_pattern_id() == old(self).spec_next_pattern_id(),
            final(self).spec_next_track_id() == old(self).spec_next_track_id(),
    {
        self.name = name;
    }

    /// Song author.
    pub fn author(&self) -> (r: &String)
        ensures
            r@ == self.spec_author(),
    {
        &self.author
    }

    /// Set the author.
    pub fn set_author(&mut self, author: String)
        ensures
            final(self).spec_generation() == old(self).spec_generation(),
            same_pools(*old(self), *final(self)),
            final(self).spec_author() == author@,
            final(self).spec_name() == old(self).spec_name(),
            final(self).spec_description() == old(self).spec_description(),
            final(self).spec_patterns() == old(self).spec_patterns(),
            final(self).spec_tracks() == old(self).spec_tracks(),
            final(self).spec_arrangement() == old(self).spec_arrangement(),
            final(self).spec_signatures() == old(self).spec_signatures(),
            final(self).spec_next_pattern_id() == old(self).spec_next_pattern_id(),
            final(self).spec_next_track_id() == old(self).spec_next_track_id(),
    {
        self.author = author;
    }

    /// The description.
    pub fn description(&self) -> (r: &String)
        ensures
            r@ == self.spec_description(),
    {
        &self.description
    }

    /// Replace the description.
    pub fn set_description(&mut self, description: String)
        ensures
            final(self).spec_generation() == old(self).spec_generation(),
            same_pools(*old(self), *final(self)),
            final(self).spec_description() == description@,
            final(self).spec_name() == old(self).spec_name(),
            final(self).spec_author() == old(self).spec_author(),
            final(self).spec_patterns() == old(self).spec_patterns(),
            final(self).spec_tracks() == old(self).spec_tracks(),
            final(self).spec_arrangement() == old(self).spec_arrangement(),
            final(self).spec_signatures() == old(self).spec_signatures(),
            final(self).spec_next_pattern_id() == old(self).spec_next_pattern_id(),
            final(self).spec_next_track_id() == old(self).spec_next_track_id(),
    {
        self.description = description;
    }

    /// Time signature before the first change.
    pub fn default_time_signature(&self) -> (r: TimeSignature)
        ensures
            r == self.spec_default_signature(),
    {
        self.default_time_signature
    }

    /// Set the time signature before the first change.
    pub fn set_default_time_signature(&mut self, sig: TimeSignature)
        ensures
            final(self).spec_generation() == old(self).spec_generation(),
            same_pools(*old(self), *final(self)),
            final(self).spec_default_signature() == sig,
            final(self).spec_signatures() == old(self).spec_signatures(),
            final(self).spec_patterns() == old(self).spec_patterns(),
            final(self).spec_tracks() == old(self).spec_tracks(),
            final(self).spec_arrangement() == old(self).spec_arrangement(),
            final(self).spec_next_pattern_id() == old(self).spec_next_pattern_id(),
            final(self).spec_next_track_id() == old(self).spec_next_track_id(),
    {
        self.default_time_signature = sig;
    }

    /// Row resolution for the pattern grid.
    pub fn row_resolution(&self) -> (r: RowResolution)
        ensures
            r == self.spec_row_resolution(),
    {
        self.row_resolution
    }

    /// Set the row resolution for the pattern grid.
    pub fn set_row_resolution(&mut self, resolution: RowResolution)
        ensures
            final(self).spec_generation() == old(self).spec_generation(),
            same_pools(*old(self), *final(self)),
            final(self).spec_row_resolution() == resolution,
            final(self).spec_patterns() == old(self).spec_patterns(),
            final(self).spec_tracks() == old(self).spec_tracks(),
            final(self).spec_arrangement() == old(self).spec_arrangement(),
            final(self).spec_signatures() == old(self).spec_signatures(),
            final(self).spec_next_pattern_id() == old(self).spec_next_pattern_id(),
            final(self).spec_next_track_id() == old(self).spec_next_track_id(),
    {
        self.row_resolution = resolution;
    }

    /// The persisted transport loop region, if one was saved.
    pub fn transport_loop(&self) -> (r: Option<LoopRegion>)
        ensures
            r == self.spec_loop(),
    {
        self.transport_loop
    }

    /// Store the transport loop region to persist with the song (`None`
    /// clears it).
    pub fn set_transport_loop(&mut self, region: Option<LoopRegion>)
        ensures
            same_pools(*old(self), *final(self)),
            final(self).spec_loop() == region,
            final(self).spec_patterns() == old(self).spec_patterns(),
            final(self).spec_tracks() == old(self).spec_tracks(),
            final(self).spec_arrangement() == old(self).spec_arrangement(),
            final(self).spec_signatures() == old(self).spec_signatures(),
            final(self).spec_next_pattern_id() == old(self).spec_next_pattern_id(),
            final(self).spec_next_track_id() == old(self).spec_next_track_id(),
            final(self).spec_generation() == old(self).spec_generation(),
    {
        self.transport_loop = region;
    }

    /// Current structural generation: bumped whenever a mutation may have
    /// changed [`Self::calculate_length`] (placements or pattern lengths), so
    /// cached song lengths know when to recompute.
    pub fn structure_generation(&self) -> (r: u64)
        ensures
            r == self.spec_generation(),
    {
        self.structure_generation
    }

    fn bump_structure(&mut self)
        ensures
            same_pools(*old(self), *final(self)),
            final(self).spec_generation() == (if old(self).spec_generation() == u64::MAX {
                0
            } else {
                old(self).spec_generation() + 1
            }),
            final(self).spec_patterns() == old(self).spec_patterns(),
            final(self).spec_tracks() == old(self).spec_tracks(),
            final(self).spec_arrangement() == old(self).spec_arrangement(),
            final(self).spec_signatures() == old(self).spec_signatures(),
            final(self).spec_next_pattern_id() == old(self).spec_next_pattern_id(),
            final(self).spec_next_track_id() == old(self).spec_next_track_id(),
            final(self).spec_loop() == old(self).spec_loop(),
            final(self).spec_default_mix() == old(self).spec_default_mix(),
            final(self).spec_name() == old(self).spec_name(),
            final(self).spec_author() == old(self).spec_author(),
            final(self).spec_description() == old(self).spec_description(),
            final(self).spec_default_signature() == old(self).spec_default_signature(),
    {
        self.structure_generation = self.structure_generation.wrapping_add(1);
    }

    /// Set the author (builder pattern).
    pub fn with_author(self, author: String) -> (r: Self)
        ensures
            same_pools(self, r),
            r.spec_author() == author@,
            r.spec_name() == self.spec_name(),
            r.spec_patterns() == self.spec_patterns(),
            r.spec_tracks() == self.spec_tracks(),
            r.spec_arrangement() == self.spec_arrangement(),
            r.spec_signatures() == self.spec_signatures(),
            r.spec_next_pattern_id() == self.spec_next_pattern_id(),
            r.spec_next_track_id() == self.spec_next_track_id(),
            r.spec_default_signature() == self.spec_default_signature(),
    {
        Song { author, ..self }
    }

    /// Set the default time signature (builder pattern).
    pub fn with_time_signature(self, sig: TimeSignature) -> (r: Self)
        ensures
            same_pools(self, r),
            r.spec_default_signature() == sig,
            r.spec_name() == self.spec_name(),
            r.spec_author() == self.spec_author(),
            r.spec_patterns() == self.spec_patterns(),
            r.spec_tracks() == self.spec_tracks(),
            r.spec_arrangement() == self.spec_arrangement(),
            r.spec_signatures() == self.spec_signatures(),
            r.spec_next_pattern_id() == self.spec_next_pattern_id(),
            r.spec_next_track_id() == self.spec_next_track_id(),
    {
        Song { default_time_signature: sig, ..self }
    }

    // === Patterns ===

    /// Create a new pattern of the given length under the next pattern id.
    pub fn create_pattern(&mut self, length: Duration) -> (id: PatternId)
        ensures
            final(self).spec_generation() != old(self).spec_generation(),
            same_pools(*old(self), *final(self)),
            id.0 == old(self).spec_next_pattern_id(),
            final(self).spec_next_pattern_id() == (if old(self).spec_next_pattern_id() == u32::MAX {
                u32::MAX
            } else {
                (old(self).spec_next_pattern_id() + 1) as u32
            }),
            final(self).spec_patterns().len() == old(self).spec_patterns().len() + 1,
            final(self).spec_patterns().drop_last() == old(self).spec_patterns(),
            final(self).spec_patterns().last().spec_id() == id,
            final(self).spec_patterns().last().spec_length() == length,
            final(self).spec_patterns().last().note_seq().len() == 0,
            final(self).spec_patterns().last().spec_name().len() == 0,
            final(self).spec_tracks() == old(self).spec_tracks(),
            final(self).spec_arrangement() == old(self).spec_arrangement(),
            final(self).spec_signatures() == old(self).spec_signatures(),
            final(self).spec_next_track_id() == old(self).spec_next_track_id(),
            old(self).wf() && old(self).spec_next_pattern_id() < u32::MAX ==> final(self).wf(),
            old(self).wf() ==> forall|k: int| 0 <= k < old(self).spec_patterns().len() ==> (#[trigger] old(self).spec_patterns()[k]).spec_id() != id,
    {
        let id = PatternId(self.next_pattern_id);
        self.next_pattern_id = self.next_pattern_id.saturating_add(1);
        self.patterns.push(Pattern::new(id, length));
        self.bump_structure();
        proof {
            assert(self.spec_patterns().drop_last() =~= old(self).spec_patterns());
        }
        id
    }

    /// The index of the pattern with this id.
    fn pattern_index(&self, id: PatternId) -> (r: Option<usize>)
        ensures
            match r {
                Some(i) => i == first_index(self.spec_patterns(), pattern_is::<M>(id)),
                None => first_index(self.spec_patterns(), pattern_is::<M>(id)) == -1,
            },
    {
        let mut i: usize = 0;
        while i < self.patterns.len()
            invariant
                i <= self.spec_patterns().len(),
                forall|k: int| 0 <= k < i ==> !pattern_is::<M>(id)(#[trigger] self.spec_patterns()[k]),
            decreases self.spec_patterns().len() - i,
        {
            if self.patterns[i].id() == id {
                proof {
                    lemma_first_index_at(self.spec_patterns(), pattern_is::<M>(id), i as int);
                }
                return Some(i);
            }
            i = i + 1;
        }
        proof {
            lemma_first_index(self.spec_patterns(), pattern_is::<M>(id));
        }
        None
    }

    /// Get a pattern by id.
    pub fn pattern(&self, id: PatternId) -> (r: Option<&Pattern>)
        ensures
            ({
                let i = first_index(self.spec_patterns(), pattern_is::<M>(id));
                match r {
                    Some(p) => i >= 0 && *p == self.spec_patterns()[i],
                    None => i == -1,
                }
            }),
    {
        proof {
            lemma_first_index(self.spec_patterns(), pattern_is::<M>(id));
        }
        match self.pattern_index(id) {
            Some(i) => Some(&self.patterns[i]),
            None => None,
        }
    }

    /// All patterns, in creation order.
    pub fn patterns(&self) -> (r: &[Pattern])
        ensures
            r@ == self.spec_patterns(),
    {
        self.patterns.as_slice()
    }

    /// The number of patterns.
    pub fn pattern_count(&self) -> (r: usize)
        ensures
            r == self.spec_patterns().len(),
    {
        self.patterns.len()
    }

    /// Delete a pattern, together with every placement of it.
    pub fn delete_pattern(&mut self, id: PatternId) -> (r: Option<Pattern>)
        ensures
            same_pools(*old(self), *final(self)),
            final(self).spec_arrangement() == old(self).spec_arrangement().filter(not_of_pattern::<M>(id)),
            ({
                let i = first_index(old(self).spec_patterns(), pattern_is::<M>(id));
                match r {
                    Some(p) => i >= 0 && p == old(self).spec_patterns()[i] && final(self).spec_patterns()
                        == old(self).spec_patterns().remove(i),
                    None => i == -1 && final(self).spec_patterns() == old(self).spec_patterns(),
                }
            }),
            final(self).spec_tracks() == old(self).spec_tracks(),
            final(self).spec_signatures() == old(self).spec_signatures(),
            final(self).spec_next_pattern_id() == old(self).spec_next_pattern_id(),
            final(self).spec_next_track_id() == old(self).spec_next_track_id(),
            final(self).spec_generation() != old(self).spec_generation(),
            old(self).wf() ==> final(self).wf(),
            forall|k: int| 0 <= k < final(self).spec_arrangement().len() ==> (#[trigger] final(self).spec_arrangement()[k]).pattern_id != id,
    {
        let ghost keep = not_of_pattern::<M>(id);
        let kept = without_pattern(&self.arrangement, id);
        proof {
            if old(self).wf() {
                lemma_filter_sorted(old(self).spec_arrangement(), keep);
            }
            lemma_filter_elements(old(self).spec_arrangement(), keep);
            lemma_first_index(old(self).spec_patterns(), pattern_is::<M>(id));
        }
        self.arrangement = kept;
        self.bump_structure();
        match self.pattern_index(id) {
            Some(pos) => {
                let removed = self.patterns.remove(pos);
                proof {
                    let ps = old(self).spec_patterns();
                    if old(self).wf() {
                    assert forall|a: int, b: int| 0 <= a < b < self.spec_patterns().len()
                        implies self.spec_patterns()[a].spec_id() != self.spec_patterns()[b].spec_id() by {
                        let a2 = if a < pos { a } else { a + 1 };
                        let b2 = if b < pos { b } else { b + 1 };
                        assert(self.spec_patterns()[a] == ps[a2]);
                        assert(self.spec_patterns()[b] == ps[b2]);
                    }
                    assert forall|a: int| 0 <= a < self.spec_patterns().len()
                        implies (#[trigger] self.spec_patterns()[a]).spec_id().0 < self.spec_next_pattern_id() by {
                        let a2 = if a < pos { a } else { a + 1 };
                        assert(self.spec_patterns()[a] == ps[a2]);
                    }
                    }
                }
                Some(removed)
            },
            None => None,
        }
    }

    /// Insert a pre-built pattern under its existing id (used to restore a
    /// deleted pattern). Refused when a pattern with that id exists; the next
    /// pattern id is kept ahead of the restored one.
    pub fn insert_pattern(&mut self, pattern: Pattern) -> (r: bool)
        ensures
            r ==> final(self).spec_generation() != old(self).spec_generation(),
            !r ==> final(self).spec_generation() == old(self).spec_generation(),
            same_pools(*old(self), *final(self)),
            r == (first_index(old(self).spec_patterns(), pattern_is::<M>(pattern.spec_id())) == -1),
            r ==> final(self).spec_patterns() == old(self).spec_patterns().push(pattern),
            !r ==> final(self).spec_patterns() == old(self).spec_patterns(),
            final(self).spec_next_pattern_id() == (if r && pattern.spec_id().0 >= old(self).spec_next_pattern_id() {
                if pattern.spec_id().0 == u32::MAX { u32::MAX } else { (pattern.spec_id().0 + 1) as u32 }
            } else {
                old(self).spec_next_pattern_id()
            }),
            final(self).spec_tracks() == old(self).spec_tracks(),
            final(self).spec_arrangement() == old(self).spec_arrangement(),
            final(self).spec_signatures() == old(self).spec_signatures(),
            final(self).spec_next_track_id() == old(self).spec_next_track_id(),
            old(self).wf() && pattern.spec_id().0 < u32::MAX ==> final(self).wf(),
    {
        proof {
            lemma_first_index(old(self).spec_patterns(), pattern_is::<M>(pattern.spec_id()));
        }
        if self.pattern_index(pattern.id()).is_some() {
            return false;
        }
        if pattern.id().0 >= self.next_pattern_id {
            self.next_pattern_id = pattern.id().0.saturating_add(1);
        }
        self.patterns.push(pattern);
        self.bump_structure();
        proof {
            let ps = old(self).spec_patterns();
            let np = self.spec_patterns();
            if old(self).wf() && pattern.spec_id().0 < u32::MAX {
                assert forall|a: int| 0 <= a < ps.len() implies (#[trigger] ps[a]).spec_id() != pattern.spec_id() by {
                    assert(!pattern_is::<M>(pattern.spec_id())(ps[a]));
                }
                assert forall|a: int, b: int| 0 <= a < b < np.len() implies np[a].spec_id() != np[b].spec_id() by {
                    if b == np.len() - 1 {
                        assert(np[a] == ps[a]);
                    } else {
                        assert(np[a] == ps[a]);
                        assert(np[b] == ps[b]);
                    }
                }
                assert forall|a: int| 0 <= a < np.len() implies (#[trigger] np[a]).spec_id().0 < self.spec_next_pattern_id() by {
                    if a < ps.len() {
                        assert(np[a] == ps[a]);
                    }
                }
            }
        }
        true
    }

    /// Duplicate a pattern under the next pattern id, named `"<name> (copy)"`,
    /// bound to the same Note Grid graph,
    /// with the same length and a copy of every note (renumbered in order).
    pub fn duplicate_pattern(&mut self, id: PatternId) -> (r: Option<PatternId>)
        ensures
            r is Some ==> final(self).spec_generation() != old(self).spec_generation(),
            r is None ==> final(self).spec_generation() == old(self).spec_generation(),
            same_pools(*old(self), *final(self)),
            ({
                let i = first_index(old(self).spec_patterns(), pattern_is::<M>(id));
                match r {
                    None => i == -1 && final(self).spec_patterns() == old(self).spec_patterns()
                        && final(self).spec_next_pattern_id() == old(self).spec_next_pattern_id(),
                    Some(new_id) => {
                        let src = old(self).spec_patterns()[i];
                        let copy = final(self).spec_patterns().last();
                        &&& i >= 0
                        &&& new_id.0 == old(self).spec_next_pattern_id()
                        &&& final(self).spec_patterns().drop_last() == old(self).spec_patterns()
                        &&& final(self).spec_patterns().len() == old(self).spec_patterns().len() + 1
                        &&& copy.spec_id() == new_id
                        &&& copy.spec_name() == src.spec_name() + " (copy)"@
                        &&& copy.spec_length() == src.spec_length()
                        &&& copy.spec_note_graph() == src.spec_note_graph()
                        &&& copy.note_seq().len() == src.note_seq().len()
                        &&& forall|k: int| 0 <= k < src.note_seq().len() ==> #[trigger] copy.note_seq()[k]
                            == (crate::note::Note { id: crate::ids::NoteId(k as u64), ..src.note_seq()[k] })
                        &&& final(self).spec_next_pattern_id() == (if old(self).spec_next_pattern_id()
                            == u32::MAX {
                            u32::MAX
                        } else {
                            (old(self).spec_next_pattern_id() + 1) as u32
                        })
                    },
                }
            }),
            final(self).spec_tracks() == old(self).spec_tracks(),
            final(self).spec_arrangement() == old(self).spec_arrangement(),
            final(self).spec_signatures() == old(self).spec_signatures(),
            final(self).spec_next_track_id() == old(self).spec_next_track_id(),
            old(self).wf() && old(self).spec_next_pattern_id() < u32::MAX ==> final(self).wf(),
    {
        proof {
            reveal_strlit(" (copy)");
            lemma_first_index(old(self).spec_patterns(), pattern_is::<M>(id));
        }
        let pos = match self.pattern_index(id) {
            Some(p) => p,
            None => return None,
        };
        let new_id = PatternId(self.next_pattern_id);
        self.next_pattern_id = self.next_pattern_id.saturating_add(1);
        let src = &self.patterns[pos];
        src.check_invariant();
        let name = src.name().clone().concat(" (copy)");
        let mut copy = Pattern::new(new_id, src.length()).with_name(name);
        copy.set_note_graph(src.note_graph());
        let notes = src.notes();
        let mut k: usize = 0;
        while k < notes.len()
            invariant
                k <= notes@.len(),
                notes@ == src.note_seq(),
                starts_sorted(notes@),
                copy.spec_id() == new_id,
                copy.spec_length() == src.spec_length(),
                copy.spec_name() == src.spec_name() + " (copy)"@,
                copy.spec_note_graph() == src.spec_note_graph(),
                copy.next_id_value() == k,
                copy.note_seq().len() == k,
                forall|j: int| 0 <= j < k ==> #[trigger] copy.note_seq()[j] == (crate::note::Note {
                    id: crate::ids::NoteId(j as u64),
                    ..notes@[j]
                }),
            decreases notes@.len() - k,
        {
            let note = notes[k];
            proof {
                assert forall|j: int| 0 <= j < copy.note_seq().len() implies (#[trigger] copy.note_seq()[j]).start.0 <= note.start.0 by {
                    assert(copy.note_seq()[j].start == notes@[j].start);
                }
                crate::pattern::lemma_insert_at_end(copy.note_seq(), note.start.0 as int);
            }
            let ghost before = copy.note_seq();
            let _ = copy.insert_note(note);
            proof {
                assert(copy.note_seq() =~= before.push(crate::note::Note { id: crate::ids::NoteId(k as u64), ..note }));
            }
            k = k + 1;
        }
        self.patterns.push(copy);
        self.bump_structure();
        proof {
            assert(self.spec_patterns().drop_last() =~= old(self).spec_patterns());
        }
        Some(new_id)
    }

    // === Tracks ===

    /// Create a new track under the next track id.
    pub fn create_track(&mut self, name: String) -> (id: TrackId)
        ensures
            final(self).spec_generation() == old(self).spec_generation(),
            same_pools(*old(self), *final(self)),
            id.0 == old(self).spec_next_track_id(),
            final(self).spec_next_track_id() == (if old(self).spec_next_track_id() == u16::MAX {
                u16::MAX
            } else {
                (old(self).spec_next_track_id() + 1) as u16
            }),
            final(self).spec_tracks().len() == old(self).spec_tracks().len() + 1,
            final(self).spec_tracks().drop_last() == old(self).spec_tracks(),
            final(self).spec_tracks().last().id == id,
            final(self).spec_tracks().last().name@ == name@,
            !final(self).spec_tracks().last().mute,
            !final(self).spec_tracks().last().solo,
            final(self).spec_patterns() == old(self).spec_patterns(),
            final(self).spec_arrangement() == old(self).spec_arrangement(),
            final(self).spec_signatures() == old(self).spec_signatures(),
            final(self).spec_next_pattern_id() == old(self).spec_next_pattern_id(),
            old(self).wf() && old(self).spec_next_track_id() < u16::MAX ==> final(self).wf(),
            old(self).wf() ==> forall|k: int| 0 <= k < old(self).spec_tracks().len() ==> (#[trigger] old(self).spec_tracks()[k]).id != id,
    {
        let id = TrackId(self.next_track_id);
        self.next_track_id = self.next_track_id.saturating_add(1);
        self.tracks.push(SequencerTrack::new(id, name));
        proof {
            assert(self.spec_tracks().drop_last() =~= old(self).spec_tracks());
        }
        id
    }

    /// The index of the track with this id.
    fn track_index(&self, id: TrackId) -> (r: Option<usize>)
        ensures
            match r {
                Some(i) => i == first_index(self.spec_tracks(), track_is(id)),
                None => first_index(self.spec_tracks(), track_is(id)) == -1,
            },
    {
        let mut i: usize = 0;
        while i < self.tracks.len()
            invariant
                i <= self.spec_tracks().len(),
                forall|k: int| 0 <= k < i ==> !track_is(id)(#[trigger] self.spec_tracks()[k]),
            decreases self.spec_tracks().len() - i,
        {
            if self.tracks[i].id == id {
                proof {
                    lemma_first_index_at(self.spec_tracks(), track_is(id), i as int);
                }
                return Some(i);
            }
            i = i + 1;
        }
        proof {
            lemma_first_index(self.spec_tracks(), track_is(id));
        }
        None
    }

    /// Insert a pre-built track under its existing id at `at_index` (clamped
    /// to the end; the end when `None`). Refused when the id exists; the next
    /// track id is kept ahead of the restored one.
    pub fn insert_track(&mut self, track: SequencerTrack, at_index: Option<usize>) -> (r: bool)
        ensures
            final(self).spec_generation() == old(self).spec_generation(),
            same_pools(*old(self), *final(self)),
            r == (first_index(old(self).spec_tracks(), track_is(track.id)) == -1),
            r ==> final(self).spec_tracks() == old(self).spec_tracks().insert(
                match at_index {
                    Some(i) => if i < old(self).spec_tracks().len() { i as int } else { old(self).spec_tracks().len() as int },
                    None => old(self).spec_tracks().len() as int,
                },
                track,
            ),
            !r ==> final(self).spec_tracks() == old(self).spec_tracks(),
            final(self).spec_next_track_id() == (if r && track.id.0 >= old(self).spec_next_track_id() {
                if track.id.0 == u16::MAX { u16::MAX } else { (track.id.0 + 1) as u16 }
            } else {
                old(self).spec_next_track_id()
            }),
            final(self).spec_patterns() == old(self).spec_patterns(),
            final(self).spec_arrangement() == old(self).spec_arrangement(),
            final(self).spec_signatures() == old(self).spec_signatures(),
            final(self).spec_next_pattern_id() == old(self).spec_next_pattern_id(),
            old(self).wf() && track.id.0 < u16::MAX ==> final(self).wf(),
    {
        proof {
            lemma_first_index(old(self).spec_tracks(), track_is(track.id));
        }
        if self.track_index(track.id).is_some() {
            return false;
        }
        if track.id.0 >= self.next_track_id {
            self.next_track_id = track.id.0.saturating_add(1);
        }
        let pos: usize = match at_index {
            Some(i) => if i < self.tracks.len() { i } else { self.tracks.len() },
            None => self.tracks.len(),
        };
        let ghost tid = track.id;
        self.tracks.insert(pos, track);
        proof {
            let ts = old(self).spec_tracks();
            let nt = self.spec_tracks();
            if old(self).wf() && tid.0 < u16::MAX {
            assert forall|a: int| 0 <= a < ts.len() implies (#[trigger] ts[a]).id != tid by {
                assert(!track_is(tid)(ts[a]));
            }
            assert forall|a: int, b: int| 0 <= a < b < nt.len() implies nt[a].id != nt[b].id by {
                if a != pos && b != pos {
                    let a2 = if a < pos { a } else { a - 1 };
                    let b2 = if b < pos { b } else { b - 1 };
                    assert(nt[a] == ts[a2]);
                    assert(nt[b] == ts[b2]);
                } else if a == pos {
                    let b2 = b - 1;
                    assert(nt[b] == ts[b2]);
                    assert(!track_is(tid)(ts[b2]));
                } else {
                    let a2 = if a < pos { a } else { a - 1 };
                    assert(nt[a] == ts[a2]);
                    assert(!track_is(tid)(ts[a2]));
                }
            }
            assert forall|a: int| 0 <= a < nt.len() implies (#[trigger] nt[a]).id.0 < self.spec_next_track_id() by {
                if a != pos {
                    let a2 = if a < pos { a } else { a - 1 };
                    assert(nt[a] == ts[a2]);
                }
            }
            }
        }
        true
    }

    /// Move a track from one index to another in the display order. Refused
    /// (false) when either index is out of range or they are equal.
    pub fn reorder_track(&mut self, from: usize, to: usize) -> (r: bool)
        ensures
            final(self).spec_generation() == old(self).spec_generation(),
            same_pools(*old(self), *final(self)),
            r == (from < old(self).spec_tracks().len() && to < old(self).spec_tracks().len() && from != to),
            r ==> final(self).spec_tracks() == old(self).spec_tracks().remove(from as int).insert(
                to as int,
                old(self).spec_tracks()[from as int],
            ),
            !r ==> final(self).spec_tracks() == old(self).spec_tracks(),
            final(self).spec_patterns() == old(self).spec_patterns(),
            final(self).spec_arrangement() == old(self).spec_arrangement(),
            final(self).spec_signatures() == old(self).spec_signatures(),
            final(self).spec_next_pattern_id() == old(self).spec_next_pattern_id(),
            final(self).spec_next_track_id() == old(self).spec_next_track_id(),
            old(self).wf() ==> final(self).wf(),
    {
        if from >= self.tracks.len() || to >= self.tracks.len() || from == to {
            return false;
        }
        let track = self.tracks.remove(from);
        self.tracks.insert(to, track);
        proof {
            let ts = old(self).spec_tracks();
            let mid = ts.remove(from as int);
            let nt = self.spec_tracks();
            if old(self).wf() {
            assert forall|a: int| 0 <= a < nt.len() implies exists|b: int| 0 <= b < ts.len() && #[trigger] nt[a] == ts[b]
                && (a == to ==> b == from) && (a != to ==> b != from) by {
                if a == to {
                } else {
                    let m = if a < to { a } else { a - 1 };
                    let b = if m < from { m } else { m + 1 };
                    assert(nt[a] == mid[m]);
                    assert(mid[m] == ts[b]);
                }
            }
            assert forall|a: int, c: int| 0 <= a < c < nt.len() implies nt[a].id != nt[c].id by {
                let ma = if a == to { -1 } else if a < to { a } else { a - 1 };
                let mc = if c == to { -1 } else if c < to { c } else { c - 1 };
                let ba = if a == to { from as int } else if ma < from { ma } else { ma + 1 };
                let bc = if c == to { from as int } else if mc < from { mc } else { mc + 1 };
                assert(nt[a] == ts[ba]);
                assert(nt[c] == ts[bc]);
                assert(ba != bc);
            }
            assert forall|a: int| 0 <= a < nt.len() implies (#[trigger] nt[a]).id.0 < self.spec_next_track_id() by {
                let ma = if a == to { -1 } else if a < to { a } else { a - 1 };
                let ba = if a == to { from as int } else if ma < from { ma } else { ma + 1 };
                assert(nt[a] == ts[ba]);
            }
            }
        }
        true
    }

    /// Get a track by id.
    pub fn track(&self, id: TrackId) -> (r: Option<&SequencerTrack>)
        ensures
            ({
                let i = first_index(self.spec_tracks(), track_is(id));
                match r {
                    Some(t) => i >= 0 && *t == self.spec_tracks()[i],
                    None => i == -1,
                }
            }),
    {
        proof {
            lemma_first_index(self.spec_tracks(), track_is(id));
        }
        match self.track_index(id) {
            Some(i) => Some(&self.tracks[i]),
            None => None,
        }
    }

    /// All tracks, in display order.
    pub fn tracks(&self) -> (r: &[SequencerTrack])
        ensures
            r@ == self.spec_tracks(),
    {
        self.tracks.as_slice()
    }

    /// The number of tracks.
    pub fn track_count(&self) -> (r: usize)
        ensures
            r == self.spec_tracks().len(),
    {
        self.tracks.len()
    }

    /// Delete a track, together with every placement on it.
    pub fn delete_track(&mut self, id: TrackId) -> (r: Option<SequencerTrack>)
        ensures
            same_pools(*old(self), *final(self)),
            final(self).spec_arrangement() == old(self).spec_arrangement().filter(not_on_track::<M>(id)),
            ({
                let i = first_index(old(self).spec_tracks(), track_is(id));
                match r {
                    Some(t) => i >= 0 && t == old(self).spec_tracks()[i] && final(self).spec_tracks()
                        == old(self).spec_tracks().remove(i),
                    None => i == -1 && final(self).spec_tracks() == old(self).spec_tracks(),
                }
            }),
            final(self).spec_patterns() == old(self).spec_patterns(),
            final(self).spec_signatures() == old(self).spec_signatures(),
            final(self).spec_next_pattern_id() == old(self).spec_next_pattern_id(),
            final(self).spec_next_track_id() == old(self).spec_next_track_id(),
            final(self).spec_generation() != old(self).spec_generation(),
            old(self).wf() ==> final(self).wf(),
            forall|k: int| 0 <= k < final(self).spec_arrangement().len() ==> (#[trigger] final(self).spec_arrangement()[k]).track_id != id,
    {
        let ghost keep = not_on_track::<M>(id);
        let kept = without_track(&self.arrangement, id);
        proof {
            if old(self).wf() {
                lemma_filter_sorted(old(self).spec_arrangement(), keep);
            }
            lemma_filter_elements(old(self).spec_arrangement(), keep);
            lemma_first_index(old(self).spec_tracks(), track_is(id));
        }
        self.arrangement = kept;
        self.bump_structure();
        match self.track_index(id) {
            Some(pos) => {
                let removed = self.tracks.remove(pos);
                proof {
                    let ts = old(self).spec_tracks();
                    if old(self).wf() {
                    assert forall|a: int, b: int| 0 <= a < b < self.spec_tracks().len()
                        implies self.spec_tracks()[a].id != self.spec_tracks()[b].id by {
                        let a2 = if a < pos { a } else { a + 1 };
                        let b2 = if b < pos { b } else { b + 1 };
                        assert(self.spec_tracks()[a] == ts[a2]);
                        assert(self.spec_tracks()[b] == ts[b2]);
                    }
                    assert forall|a: int| 0 <= a < self.spec_tracks().len()
                        implies (#[trigger] self.spec_tracks()[a]).id.0 < self.spec_next_track_id() by {
                        let a2 = if a < pos { a } else { a + 1 };
                        assert(self.spec_tracks()[a] == ts[a2]);
                    }
                    }
                }
                Some(removed)
            },
            None => None,
        }
    }

    /// Whether any track is soloed.
    pub fn any_solo(&self) -> (r: bool)
        ensures
            r == exists|i: int| 0 <= i < self.spec_tracks().len() && (#[trigger] self.spec_tracks()[i]).solo,
    {
        let mut i: usize = 0;
        while i < self.tracks.len()
            invariant
                i <= self.spec_tracks().len(),
                forall|k: int| 0 <= k < i ==> !(#[trigger] self.spec_tracks()[k]).solo,
            decreases self.spec_tracks().len() - i,
        {
            if self.tracks[i].solo {
                return true;
            }
            i = i + 1;
        }
        false
    }

    /// Solo exactly the track `target`: `solo` is set on it and cleared on
    /// every other track (all are cleared when `target` does not exist).
    pub fn set_solo_only(&mut self, target: TrackId)
        ensures
            final(self).spec_generation() == old(self).spec_generation(),
            same_pools(*old(self), *final(self)),
            final(self).spec_tracks().len() == old(self).spec_tracks().len(),
            forall|i: int| 0 <= i < final(self).spec_tracks().len() ==> #[trigger] final(self).spec_tracks()[i]
                == (SequencerTrack { solo: old(self).spec_tracks()[i].id == target, ..old(self).spec_tracks()[i] }),
            final(self).spec_patterns() == old(self).spec_patterns(),
            final(self).spec_arrangement() == old(self).spec_arrangement(),
            final(self).spec_signatures() == old(self).spec_signatures(),
            final(self).spec_next_pattern_id() == old(self).spec_next_pattern_id(),
            final(self).spec_next_track_id() == old(self).spec_next_track_id(),
            old(self).wf() ==> final(self).wf(),
    {
        let mut i: usize = 0;
        while i < self.tracks.len()
            invariant
                i <= self.spec_tracks().len(),
                self.spec_tracks().len() == old(self).spec_tracks().len(),
                forall|k: int| 0 <= k < i ==> #[trigger] self.spec_tracks()[k]
                    == (SequencerTrack { solo: old(self).spec_tracks()[k].id == target, ..old(self).spec_tracks()[k] }),
                forall|k: int| i <= k < self.spec_tracks().len() ==> #[trigger] self.spec_tracks()[k] == old(self).spec_tracks()[k],
                self.spec_patterns() == old(self).spec_patterns(),
                self.spec_arrangement() == old(self).spec_arrangement(),
                same_pools(*old(self), *self),
                self.spec_generation() == old(self).spec_generation(),
                self.spec_signatures() == old(self).spec_signatures(),
                self.spec_next_pattern_id() == old(self).spec_next_pattern_id(),
                self.spec_next_track_id() == old(self).spec_next_track_id(),
                same_pools(*old(self), *self),
                self.spec_generation() == old(self).spec_generation(),
            decreases self.spec_tracks().len() - i,
        {
            let is_target = self.tracks[i].id == target;
            self.tracks[i].solo = is_target;
            i = i + 1;
        }
    }

    /// Make exactly the tracks driving `instrument` audible: they are
    /// unmuted, every other track is muted, and no track stays soloed.
    /// Returns the number of tracks left audible.
    pub fn isolate_instrument(&mut self, instrument: InstrumentId) -> (r: usize)
        ensures
            final(self).spec_generation() == old(self).spec_generation(),
            same_pools(*old(self), *final(self)),
            final(self).spec_tracks().len() == old(self).spec_tracks().len(),
            forall|i: int| 0 <= i < final(self).spec_tracks().len() ==> #[trigger] final(self).spec_tracks()[i]
                == (SequencerTrack {
                    solo: false,
                    mute: old(self).spec_tracks()[i].instrument != instrument,
                    ..old(self).spec_tracks()[i]
                }),
            r == old(self).spec_tracks().filter(|t: SequencerTrack| t.instrument == instrument).len(),
            final(self).spec_patterns() == old(self).spec_patterns(),
            final(self).spec_arrangement() == old(self).spec_arrangement(),
            final(self).spec_signatures() == old(self).spec_signatures(),
            final(self).spec_next_pattern_id() == old(self).spec_next_pattern_id(),
            final(self).spec_next_track_id() == old(self).spec_next_track_id(),
            old(self).wf() ==> final(self).wf(),
    {
        let ghost matching = |t: SequencerTrack| t.instrument == instrument;
        let mut audible: usize = 0;
        let mut i: usize = 0;
        proof {
            reveal(Seq::filter);
            assert(old(self).spec_tracks().subrange(0, 0).filter(matching).len() == 0);
        }
        while i < self.tracks.len()
            invariant
                i <= self.spec_tracks().len(),
                self.spec_tracks().len() == old(self).spec_tracks().len(),
                matching == (|t: SequencerTrack| t.instrument == instrument),
                audible == old(self).spec_tracks().subrange(0, i as int).filter(matching).len(),
                audible <= i,
                forall|k: int| 0 <= k < i ==> #[trigger] self.spec_tracks()[k] == (SequencerTrack {
                    solo: false,
                    mute: old(self).spec_tracks()[k].instrument != instrument,
                    ..old(self).spec_tracks()[k]
                }),
                forall|k: int| i <= k < self.spec_tracks().len() ==> #[trigger] self.spec_tracks()[k] == old(self).spec_tracks()[k],
                self.spec_patterns() == old(self).spec_patterns(),
                self.spec_arrangement() == old(self).spec_arrangement(),
                same_pools(*old(self), *self),
                self.spec_generation() == old(self).spec_generation(),
                self.spec_signatures() == old(self).spec_signatures(),
                self.spec_next_pattern_id() == old(self).spec_next_pattern_id(),
                self.spec_next_track_id() == old(self).spec_next_track_id(),
            decreases self.spec_tracks().len() - i,
        {
            let matches_instrument = self.tracks[i].instrument == instrument;
            proof {
                reveal(Seq::filter);
                let pre = old(self).spec_tracks().subrange(0, i + 1);
                assert(pre.drop_last() =~= old(self).spec_tracks().subrange(0, i as int));
                assert(pre.last() == old(self).spec_tracks()[i as int]);
                assert(pre.filter(matching) == (if matching(pre.last()) {
                    pre.drop_last().filter(matching).push(pre.last())
                } else {
                    pre.drop_last().filter(matching)
                }));
                assert(self.spec_tracks()[i as int] == old(self).spec_tracks()[i as int]);
                assert(matches_instrument == (old(self).spec_tracks()[i as int].instrument == instrument));
                assert(matching(pre.last()) == (pre.last().instrument == instrument));
                assert(pre.filter(matching).len() == pre.drop_last().filter(matching).len() + (if matches_instrument { 1int } else { 0int }));
            }
            self.tracks[i].solo = false;
            self.tracks[i].mute = !matches_instrument;
            if matches_instrument {
                audible = audible + 1;
            }
            i = i + 1;
        }
        proof {
            assert(old(self).spec_tracks().subrange(0, old(self).spec_tracks().len() as int) =~= old(self).spec_tracks());
        }
        audible
    }


    // === Arrangement ===

    /// Place a pattern on a track at `start`, with the default mix, in start
    /// order (after any placement starting at the same tick). Refused (false)
    /// when the pattern or the track does not exist, or a placement already
    /// starts there on that track.
    pub fn place_pattern(&mut self, pattern_id: PatternId, track_id: TrackId, start: Tick) -> (r: bool)
        ensures
            r ==> final(self).spec_generation() != old(self).spec_generation(),
            !r ==> final(self).spec_generation() == old(self).spec_generation(),
            same_pools(*old(self), *final(self)),
            r == (first_index(old(self).spec_patterns(), pattern_is::<M>(pattern_id)) >= 0
                && first_index(old(self).spec_tracks(), track_is(track_id)) >= 0
                && !(exists|k: int| 0 <= k < old(self).spec_arrangement().len()
                    && (#[trigger] old(self).spec_arrangement()[k]).start == start
                    && old(self).spec_arrangement()[k].track_id == track_id)),
            r ==> final(self).spec_arrangement() == old(self).spec_arrangement().insert(
                placement_point(old(self).spec_arrangement(), start.0 as int),
                PatternPlacement { pattern_id, track_id, start, mix: old(self).spec_default_mix(), length_override: None },
            ),
            !r ==> final(self).spec_arrangement() == old(self).spec_arrangement(),
            final(self).spec_patterns() == old(self).spec_patterns(),
            final(self).spec_tracks() == old(self).spec_tracks(),
            final(self).spec_signatures() == old(self).spec_signatures(),
            final(self).spec_next_pattern_id() == old(self).spec_next_pattern_id(),
            final(self).spec_next_track_id() == old(self).spec_next_track_id(),
            final(self).spec_default_mix() == old(self).spec_default_mix(),
            old(self).wf() ==> final(self).wf(),
    {
        proof {
            lemma_first_index(old(self).spec_patterns(), pattern_is::<M>(pattern_id));
            lemma_first_index(old(self).spec_tracks(), track_is(track_id));
        }
        if self.pattern_index(pattern_id).is_none() || self.track_index(track_id).is_none() {
            return false;
        }
        let mut k: usize = 0;
        while k < self.arrangement.len()
            invariant
                k <= self.spec_arrangement().len(),
                forall|j: int| 0 <= j < k ==> !((#[trigger] self.spec_arrangement()[j]).start == start
                    && self.spec_arrangement()[j].track_id == track_id),
            decreases self.spec_arrangement().len() - k,
        {
            let p = self.arrangement[k];
            if p.start.0 == start.0 && p.track_id == track_id {
                return false;
            }
            k = k + 1;
        }
        let placement = PatternPlacement::new(pattern_id, track_id, start, self.default_mix);
        let pos = placement_insert_point(&self.arrangement, start);
        proof {
            if old(self).wf() {
                lemma_point_splits(old(self).spec_arrangement(), start.0 as int);
                lemma_insert_sorted(old(self).spec_arrangement(), placement, pos as int);
            }
        }
        self.arrangement.insert(pos, placement);
        self.bump_structure();
        true
    }

    /// Insert a pre-built placement as-is (used to restore a removed one),
    /// in start order. Refused when its pattern or track does not exist.
    pub fn insert_placement(&mut self, placement: PatternPlacement<M>) -> (r: bool)
        ensures
            r ==> final(self).spec_generation() != old(self).spec_generation(),
            !r ==> final(self).spec_generation() == old(self).spec_generation(),
            same_pools(*old(self), *final(self)),
            r == (first_index(old(self).spec_patterns(), pattern_is::<M>(placement.pattern_id)) >= 0
                && first_index(old(self).spec_tracks(), track_is(placement.track_id)) >= 0),
            r ==> final(self).spec_arrangement() == old(self).spec_arrangement().insert(
                placement_point(old(self).spec_arrangement(), placement.start.0 as int),
                placement,
            ),
            !r ==> final(self).spec_arrangement() == old(self).spec_arrangement(),
            final(self).spec_patterns() == old(self).spec_patterns(),
            final(self).spec_tracks() == old(self).spec_tracks(),
            final(self).spec_signatures() == old(self).spec_signatures(),
            final(self).spec_next_pattern_id() == old(self).spec_next_pattern_id(),
            final(self).spec_next_track_id() == old(self).spec_next_track_id(),
            old(self).wf() ==> final(self).wf(),
    {
        proof {
            lemma_first_index(old(self).spec_patterns(), pattern_is::<M>(placement.pattern_id));
            lemma_first_index(old(self).spec_tracks(), track_is(placement.track_id));
        }
        if self.pattern_index(placement.pattern_id).is_none() || self.track_index(placement.track_id).is_none() {
            return false;
        }
        let pos = placement_insert_point(&self.arrangement, placement.start);
        proof {
            if old(self).wf() {
                lemma_point_splits(old(self).spec_arrangement(), placement.start.0 as int);
                lemma_insert_sorted(old(self).spec_arrangement(), placement, pos as int);
            }
        }
        self.arrangement.insert(pos, placement);
        self.bump_structure();
        true
    }

    /// Remove the first placement of `pattern_id` on `track_id` at `start`.
    pub fn remove_placement(&mut self, pattern_id: PatternId, track_id: TrackId, start: Tick) -> (r: bool)
        ensures
            r ==> final(self).spec_generation() != old(self).spec_generation(),
            !r ==> final(self).spec_generation() == old(self).spec_generation(),
            same_pools(*old(self), *final(self)),
            ({
                let i = first_index(old(self).spec_arrangement(), placement_is::<M>(pattern_id, track_id, start));
                &&& r == (i >= 0)
                &&& r ==> final(self).spec_arrangement() == old(self).spec_arrangement().remove(i)
                &&& !r ==> final(self).spec_arrangement() == old(self).spec_arrangement()
            }),
            final(self).spec_patterns() == old(self).spec_patterns(),
            final(self).spec_tracks() == old(self).spec_tracks(),
            final(self).spec_signatures() == old(self).spec_signatures(),
            final(self).spec_next_pattern_id() == old(self).spec_next_pattern_id(),
            final(self).spec_next_track_id() == old(self).spec_next_track_id(),
            old(self).wf() ==> final(self).wf(),
    {
        proof {
            lemma_first_index(old(self).spec_arrangement(), placement_is::<M>(pattern_id, track_id, start));
        }
        match find_placement(&self.arrangement, pattern_id, track_id, start) {
            Some(idx) => {
                proof {
                    if old(self).wf() {
                        lemma_remove_sorted(old(self).spec_arrangement(), idx as int);
                    }
                }
                let _ = self.arrangement.remove(idx);
                self.bump_structure();
                true
            },
            None => false,
        }
    }

    /// Set (or clear, with `None`) the length override of the first
    /// placement of `pattern_id` on `track_id` at `start`.
    pub fn set_placement_length(&mut self, pattern_id: PatternId, track_id: TrackId, start: Tick, length: Option<Duration>) -> (r: bool)
        ensures
            r ==> final(self).spec_generation() != old(self).spec_generation(),
            !r ==> final(self).spec_generation() == old(self).spec_generation(),
            same_pools(*old(self), *final(self)),
            ({
                let i = first_index(old(self).spec_arrangement(), placement_is::<M>(pattern_id, track_id, start));
                &&& r == (i >= 0)
                &&& r ==> final(self).spec_arrangement() == old(self).spec_arrangement().update(
                    i,
                    PatternPlacement { length_override: length, ..old(self).spec_arrangement()[i] },
                )
                &&& !r ==> final(self).spec_arrangement() == old(self).spec_arrangement()
            }),
            final(self).spec_patterns() == old(self).spec_patterns(),
            final(self).spec_tracks() == old(self).spec_tracks(),
            final(self).spec_signatures() == old(self).spec_signatures(),
            final(self).spec_next_pattern_id() == old(self).spec_next_pattern_id(),
            final(self).spec_next_track_id() == old(self).spec_next_track_id(),
            old(self).wf() ==> final(self).wf(),
    {
        proof {
            lemma_first_index(old(self).spec_arrangement(), placement_is::<M>(pattern_id, track_id, start));
        }
        match find_placement(&self.arrangement, pattern_id, track_id, start) {
            Some(idx) => {
                let p = self.arrangement[idx];
                self.arrangement.set(idx, PatternPlacement { length_override: length, ..p });
                proof {
                    let a = old(self).spec_arrangement();
                    let b = self.spec_arrangement();
                    if old(self).wf() {
                        assert forall|x: int, y: int| 0 <= x < y < b.len() implies b[x].start.0 <= b[y].start.0 by {
                            assert(b[x].start == a[x].start);
                            assert(b[y].start == a[y].start);
                        }
                    }
                }
                self.bump_structure();
                true
            },
            None => false,
        }
    }

    /// All placements, in start order.
    pub fn arrangement(&self) -> (r: &[PatternPlacement<M>])
        ensures
            r@ == self.spec_arrangement(),
    {
        self.arrangement.as_slice()
    }

    /// The placements on track `track_id`, in start order.
    pub fn placements_on_track(&self, track_id: TrackId) -> (r: Vec<PatternPlacement<M>>)
        ensures
            r@ == self.spec_arrangement().filter(|p: PatternPlacement<M>| p.track_id == track_id),
    {
        let ghost keep = |p: PatternPlacement<M>| p.track_id == track_id;
        let mut out: Vec<PatternPlacement<M>> = Vec::new();
        let mut i: usize = 0;
        proof {
            reveal(Seq::filter);
            assert(self.spec_arrangement().subrange(0, 0).filter(keep) =~= Seq::<PatternPlacement<M>>::empty());
        }
        while i < self.arrangement.len()
            invariant
                i <= self.spec_arrangement().len(),
                keep == (|p: PatternPlacement<M>| p.track_id == track_id),
                out@ == self.spec_arrangement().subrange(0, i as int).filter(keep),
            decreases self.spec_arrangement().len() - i,
        {
            let p = self.arrangement[i];
            proof {
                reveal(Seq::filter);
                let pre = self.spec_arrangement().subrange(0, i + 1);
                assert(pre.drop_last() =~= self.spec_arrangement().subrange(0, i as int));
                assert(pre.last() == p);
            }
            if p.track_id == track_id {
                out.push(p);
            }
            i = i + 1;
        }
        proof {
            assert(self.spec_arrangement().subrange(0, self.spec_arrangement().len() as int) =~= self.spec_arrangement());
        }
        out
    }

    /// The end of placement `p` (its start when its pattern is unknown), as a
    /// wide integer.
    fn end_or_start(&self, p: PatternPlacement<M>) -> (r: u128)
        ensures
            r == (match placement_end(self.spec_patterns(), p) {
                Some(e) => e,
                None => p.start.0 as int,
            }),
    {
        proof {
            lemma_first_index(self.spec_patterns(), pattern_is::<M>(p.pattern_id));
        }
        match self.pattern_index(p.pattern_id) {
            Some(i) => {
                let len = p.effective_length(self.patterns[i].length());
                p.start.0 as u128 + len.0 as u128
            },
            None => p.start.0 as u128,
        }
    }

    /// The placements that overlap `[start, end)`, in start order: they
    /// start before `end` and end after `start` (a placement of an unknown
    /// pattern ends where it starts).
    pub fn placements_in_range(&self, start: Tick, end: Tick) -> (r: Vec<PatternPlacement<M>>)
        ensures
            r@ == self.spec_arrangement().filter(|p: PatternPlacement<M>| p.start.0 < end.0 && (match placement_end(self.spec_patterns(), p) {
                Some(e) => e,
                None => p.start.0 as int,
            }) > start.0),
    {
        let ghost keep = |p: PatternPlacement<M>| p.start.0 < end.0 && (match placement_end(self.spec_patterns(), p) {
            Some(e) => e,
            None => p.start.0 as int,
        }) > start.0;
        let mut out: Vec<PatternPlacement<M>> = Vec::new();
        let mut i: usize = 0;
        proof {
            reveal(Seq::filter);
            assert(self.spec_arrangement().subrange(0, 0).filter(keep) =~= Seq::<PatternPlacement<M>>::empty());
        }
        while i < self.arrangement.len()
            invariant
                i <= self.spec_arrangement().len(),
                keep == (|p: PatternPlacement<M>| p.start.0 < end.0 && (match placement_end(self.spec_patterns(), p) {
                    Some(e) => e,
                    None => p.start.0 as int,
                }) > start.0),
                out@ == self.spec_arrangement().subrange(0, i as int).filter(keep),
            decreases self.spec_arrangement().len() - i,
        {
            let p = self.arrangement[i];
            proof {
                reveal(Seq::filter);
                let pre = self.spec_arrangement().subrange(0, i + 1);
                assert(pre.drop_last() =~= self.spec_arrangement().subrange(0, i as int));
                assert(pre.last() == p);
            }
            let e = self.end_or_start(p);
            if p.start.0 < end.0 && e > start.0 as u128 {
                out.push(p);
            }
            i = i + 1;
        }
        proof {
            assert(self.spec_arrangement().subrange(0, self.spec_arrangement().len() as int) =~= self.spec_arrangement());
        }
        out
    }

    /// Where pattern `pattern_id` is playing at `current_tick`: the offset
    /// into the pattern through the first placement of it that covers the
    /// tick; `None` when the pattern is unknown or no placement covers it.
    pub fn pattern_playhead_for(&self, pattern_id: PatternId, current_tick: Tick) -> (r: Option<PatternTick>)
        ensures
            ({
                let pi = first_index(self.spec_patterns(), pattern_is::<M>(pattern_id));
                let covers = |p: PatternPlacement<M>| p.pattern_id == pattern_id && p.start.0 <= current_tick.0
                    && current_tick.0 < p.start.0 + effective_len(p, self.spec_patterns()[pi].spec_length());
                let k = first_index(self.spec_arrangement(), covers);
                match r {
                    Some(t) => pi >= 0 && k >= 0 && t.0 == current_tick.0 - self.spec_arrangement()[k].start.0,
                    None => pi == -1 || k == -1,
                }
            }),
    {
        proof {
            lemma_first_index(self.spec_patterns(), pattern_is::<M>(pattern_id));
        }
        let pi = match self.pattern_index(pattern_id) {
            Some(i) => i,
            None => return None,
        };
        let pattern_length = self.patterns[pi].length();
        let ghost pis = first_index(self.spec_patterns(), pattern_is::<M>(pattern_id));
        let ghost covers = |p: PatternPlacement<M>| p.pattern_id == pattern_id && p.start.0 <= current_tick.0
            && current_tick.0 < p.start.0 + effective_len(p, self.spec_patterns()[pis].spec_length());
        let mut k: usize = 0;
        while k < self.arrangement.len()
            invariant
                k <= self.spec_arrangement().len(),
                pattern_length == self.spec_patterns()[pi as int].spec_length(),
                pis == pi,
                pis == first_index(self.spec_patterns(), pattern_is::<M>(pattern_id)),
                covers == (|p: PatternPlacement<M>| p.pattern_id == pattern_id && p.start.0 <= current_tick.0
                    && current_tick.0 < p.start.0 + effective_len(p, self.spec_patterns()[pis].spec_length())),
                forall|j: int| 0 <= j < k ==> !covers(#[trigger] self.spec_arrangement()[j]),
            decreases self.spec_arrangement().len() - k,
        {
            let p = self.arrangement[k];
            let len = p.effective_length(pattern_length);
            if p.pattern_id == pattern_id && p.start.0 <= current_tick.0 && (current_tick.0 - p.start.0) < len.0 as u64 {
                proof {
                    assert(self.spec_arrangement()[k as int] == p);
                    lemma_first_index_at(self.spec_arrangement(), covers, k as int);
                    let ens_covers = |q: PatternPlacement<M>| q.pattern_id == pattern_id && q.start.0 <= current_tick.0
                        && current_tick.0 < q.start.0 + effective_len(q, self.spec_patterns()[first_index(self.spec_patterns(), pattern_is::<M>(pattern_id))].spec_length());
                    assert(covers =~= ens_covers);
                    assert(first_index(self.spec_arrangement(), ens_covers) == k);
                    assert(current_tick.0 - p.start.0 < 0x1_0000_0000);
                }
                return Some(PatternTick((current_tick.0 - p.start.0) as u32));
            }
            k = k + 1;
        }
        proof {
            lemma_first_index(self.spec_arrangement(), covers);
        }
        None
    }

    /// Total length of the song: the latest end among placements whose
    /// pattern exists (0 for an empty arrangement).
    pub fn calculate_length(&self) -> (r: Tick)
        requires
            forall|k: int| 0 <= k < self.spec_arrangement().len() ==> (match placement_end(
                self.spec_patterns(),
                #[trigger] self.spec_arrangement()[k],
            ) {
                Some(e) => e <= u64::MAX,
                None => true,
            }),
        ensures
            r.0 == length_upto(self.spec_patterns(), self.spec_arrangement(), self.spec_arrangement().len() as int),
    {
        let mut best: u64 = 0;
        let mut i: usize = 0;
        while i < self.arrangement.len()
            invariant
                i <= self.spec_arrangement().len(),
                best == length_upto(self.spec_patterns(), self.spec_arrangement(), i as int),
                forall|k: int| 0 <= k < self.spec_arrangement().len() ==> (match placement_end(
                    self.spec_patterns(),
                    #[trigger] self.spec_arrangement()[k],
                ) {
                    Some(e) => e <= u64::MAX,
                    None => true,
                }),
            decreases self.spec_arrangement().len() - i,
        {
            let p = self.arrangement[i];
            proof {
                lemma_first_index(self.spec_patterns(), pattern_is::<M>(p.pattern_id));
                assert(self.spec_arrangement()[i as int] == p);
            }
            match self.pattern_index(p.pattern_id) {
                Some(pi) => {
                    let e = p.end(self.patterns[pi].length());
                    if e.0 > best {
                        best = e.0;
                    }
                },
                None => {},
            }
            i = i + 1;
        }
        Tick(best)
    }


    /// Move the first placement of `pattern_id` on `from_track` at
    /// `from_start` to `to_track` at `to_start`, keeping start order: the
    /// placement goes among those starting at `to_start` according to its old
    /// index (as a stable re-sort by start would put it).
    pub fn move_placement(&mut self, pattern_id: PatternId, from_track: TrackId, from_start: Tick, to_track: TrackId, to_start: Tick) -> (r: bool)
        ensures
            r ==> final(self).spec_generation() != old(self).spec_generation(),
            !r ==> final(self).spec_generation() == old(self).spec_generation(),
            same_pools(*old(self), *final(self)),
            ({
                let a = old(self).spec_arrangement();
                let i = first_index(a, placement_is::<M>(pattern_id, from_track, from_start));
                let rest = a.remove(i);
                let lo = lower_point(rest, to_start.0 as int);
                let hi = placement_point(rest, to_start.0 as int);
                let pos = if i < lo { lo } else if i > hi { hi } else { i };
                &&& r == (i >= 0)
                &&& r ==> final(self).spec_arrangement() == rest.insert(
                    pos,
                    PatternPlacement { track_id: to_track, start: to_start, ..a[i] },
                )
                &&& !r ==> final(self).spec_arrangement() == a
            }),
            final(self).spec_patterns() == old(self).spec_patterns(),
            final(self).spec_tracks() == old(self).spec_tracks(),
            final(self).spec_signatures() == old(self).spec_signatures(),
            final(self).spec_next_pattern_id() == old(self).spec_next_pattern_id(),
            final(self).spec_next_track_id() == old(self).spec_next_track_id(),
            old(self).wf() ==> final(self).wf(),
    {
        proof {
            lemma_first_index(old(self).spec_arrangement(), placement_is::<M>(pattern_id, from_track, from_start));
        }
        let idx = match find_placement(&self.arrangement, pattern_id, from_track, from_start) {
            Some(i) => i,
            None => return false,
        };
        let p = self.arrangement.remove(idx);
        let moved = PatternPlacement { track_id: to_track, start: to_start, ..p };
        let lo = placement_lower_point(&self.arrangement, to_start);
        let hi = placement_insert_point(&self.arrangement, to_start);
        let pos: usize = if idx < lo { lo } else if idx > hi { hi } else { idx };
        proof {
            if old(self).wf() {
                lemma_remove_sorted(old(self).spec_arrangement(), idx as int);
                lemma_lower_splits(self.spec_arrangement(), to_start.0 as int);
                lemma_point_splits(self.spec_arrangement(), to_start.0 as int);
                lemma_insert_sorted(self.spec_arrangement(), moved, pos as int);
            }
        }
        self.arrangement.insert(pos, moved);
        self.bump_structure();
        true
    }

    // === Time signature ===

    /// The time signature in force at `tick`: that of the latest change at
    /// or before it, or the default before the first change.
    pub open spec fn signature_at(&self, tick: int) -> TimeSignature {
        let p = signature_point(self.spec_signatures(), tick);
        if p > 0 {
            self.spec_signatures()[p - 1].signature
        } else {
            self.spec_default_signature()
        }
    }

    /// Set the time signature from `tick` on, replacing any change at that
    /// exact tick.
    #[verifier::rlimit(40)]
    pub fn set_time_signature_at(&mut self, tick: Tick, sig: TimeSignature)
        ensures
            final(self).spec_generation() == old(self).spec_generation(),
            same_pools(*old(self), *final(self)),
            ({
                let kept = old(self).spec_signatures().filter(not_at(tick));
                final(self).spec_signatures() == kept.insert(
                    signature_point(kept, tick.0 as int),
                    TimeSignatureChange { tick, signature: sig },
                )
            }),
            old(self).wf() ==> final(self).wf(),
            old(self).wf() ==> final(self).signature_at(tick.0 as int) == sig,
            final(self).spec_patterns() == old(self).spec_patterns(),
            final(self).spec_tracks() == old(self).spec_tracks(),
            final(self).spec_arrangement() == old(self).spec_arrangement(),
            final(self).spec_next_pattern_id() == old(self).spec_next_pattern_id(),
            final(self).spec_next_track_id() == old(self).spec_next_track_id(),
            final(self).spec_default_signature() == old(self).spec_default_signature(),
    {
        let ghost keep = not_at(tick);
        let mut kept: Vec<TimeSignatureChange> = Vec::new();
        let mut i: usize = 0;
        proof {
            reveal(Seq::filter);
            assert(old(self).spec_signatures().subrange(0, 0).filter(keep) =~= Seq::<TimeSignatureChange>::empty());
        }
        while i < self.time_signature_changes.len()
            invariant
                i <= self.spec_signatures().len(),
                self.spec_signatures() == old(self).spec_signatures(),
                keep == not_at(tick),
                kept@ == self.spec_signatures().subrange(0, i as int).filter(keep),
            decreases self.spec_signatures().len() - i,
        {
            let c = self.time_signature_changes[i];
            proof {
                reveal(Seq::filter);
                let pre = self.spec_signatures().subrange(0, i + 1);
                assert(pre.drop_last() =~= self.spec_signatures().subrange(0, i as int));
                assert(pre.last() == c);
            }
            if c.tick.0 != tick.0 {
                kept.push(c);
            }
            i = i + 1;
        }
        proof {
            assert(self.spec_signatures().subrange(0, self.spec_signatures().len() as int) =~= self.spec_signatures());
        }
        let mut pos: usize = kept.len();
        proof {
            assert(kept@.subrange(0, kept@.len() as int) =~= kept@);
        }
        while pos > 0
            invariant
                pos <= kept@.len(),
                signature_point(kept@, tick.0 as int) == signature_point(kept@.subrange(0, pos as int), tick.0 as int),
            ensures
                pos <= kept@.len(),
                signature_point(kept@, tick.0 as int) == signature_point(kept@.subrange(0, pos as int), tick.0 as int),
                pos > 0 ==> kept@[pos - 1].tick.0 <= tick.0,
            decreases pos,
        {
            if kept[pos - 1].tick.0 <= tick.0 {
                break;
            }
            proof {
                let sub = kept@.subrange(0, pos as int);
                assert(sub.drop_last() =~= kept@.subrange(0, pos - 1));
            }
            pos = pos - 1;
        }
        proof {
            let sub = kept@.subrange(0, pos as int);
            if pos > 0 {
                assert(sub.last() == kept@[pos - 1]);
            }
        }
        let change = TimeSignatureChange { tick, signature: sig };
        let ghost k0 = kept@;
        kept.insert(pos, change);
        self.time_signature_changes = kept;
        proof {
            if old(self).wf() {
                lemma_signature_filter(old(self).spec_signatures(), keep);
                lemma_signature_point_splits(k0, tick.0 as int);
                let n = self.spec_signatures();
                assert forall|k: int| 0 <= k < k0.len() implies (#[trigger] k0[k]).tick != tick by {
                    assert(keep(k0[k]));
                }
                assert forall|x: int, y: int| 0 <= x < y < n.len() implies n[x].tick.0 < n[y].tick.0 by {
                    if x < pos && y < pos {
                        assert(n[x] == k0[x] && n[y] == k0[y]);
                    } else if x < pos && y == pos {
                        assert(n[x] == k0[x]);
                    } else if x < pos {
                        assert(n[x] == k0[x] && n[y] == k0[y - 1]);
                    } else if x == pos {
                        assert(n[y] == k0[y - 1]);
                    } else {
                        assert(n[x] == k0[x - 1] && n[y] == k0[y - 1]);
                    }
                }
                assert forall|k: int| 0 <= k < pos + 1 implies n[k].tick.0 <= tick.0 by {
                    if k < pos {
                        assert(n[k] == k0[k]);
                    }
                }
                assert forall|k: int| pos + 1 <= k < n.len() implies n[k].tick.0 > tick.0 by {
                    assert(n[k] == k0[k - 1]);
                }
                lemma_signature_point_is(n, tick.0 as int, pos + 1);
            }
        }
    }

    /// Get the time signature in force at `tick`.
    pub fn time_signature_at(&self, tick: Tick) -> (r: TimeSignature)
        ensures
            r == self.signature_at(tick.0 as int),
    {
        let mut pos: usize = self.time_signature_changes.len();
        proof {
            assert(self.spec_signatures().subrange(0, self.spec_signatures().len() as int) =~= self.spec_signatures());
        }
        while pos > 0
            invariant
                pos <= self.spec_signatures().len(),
                signature_point(self.spec_signatures(), tick.0 as int) == signature_point(self.spec_signatures().subrange(0, pos as int), tick.0 as int),
            ensures
                pos <= self.spec_signatures().len(),
                signature_point(self.spec_signatures(), tick.0 as int) == signature_point(self.spec_signatures().subrange(0, pos as int), tick.0 as int),
                pos > 0 ==> self.spec_signatures()[pos - 1].tick.0 <= tick.0,
            decreases pos,
        {
            if self.time_signature_changes[pos - 1].tick.0 <= tick.0 {
                break;
            }
            proof {
                let sub = self.spec_signatures().subrange(0, pos as int);
                assert(sub.drop_last() =~= self.spec_signatures().subrange(0, pos - 1));
            }
            pos = pos - 1;
        }
        proof {
            let sub = self.spec_signatures().subrange(0, pos as int);
            if pos > 0 {
                assert(sub.last() == self.spec_signatures()[pos - 1]);
            }
        }
        if pos > 0 {
            self.time_signature_changes[pos - 1].signature
        } else {
            self.default_time_signature
        }
    }

    /// The time-signature changes, in tick order.
    pub fn time_signature_changes(&self) -> (r: &[TimeSignatureChange])
        ensures
            r@ == self.spec_signatures(),
    {
        self.time_signature_changes.as_slice()
    }

    // === Cleanup ===

    /// Remove the patterns and tracks no placement refers to. Returns the
    /// removed patterns' names, the removed tracks' names (both in order),
    /// and the instruments the remaining tracks still use (each once, in
    /// track order).
    pub fn remove_unused(&mut self) -> (r: (Vec<String>, Vec<String>, Vec<InstrumentId>))
        ensures
            same_pools(*old(self), *final(self)),
            final(self).spec_patterns() == old(self).spec_patterns().filter(
                |p: Pattern| uses_pattern(old(self).spec_arrangement(), p.spec_id()),
            ),
            r.0@.map_values(|n: String| n@) == old(self).spec_patterns().filter(
                |p: Pattern| !uses_pattern(old(self).spec_arrangement(), p.spec_id()),
            ).map_values(|p: Pattern| p.spec_name()),
            final(self).spec_tracks() == old(self).spec_tracks().filter(
                |t: SequencerTrack| uses_track(old(self).spec_arrangement(), t.id),
            ),
            r.1@.map_values(|n: String| n@) == old(self).spec_tracks().filter(
                |t: SequencerTrack| !uses_track(old(self).spec_arrangement(), t.id),
            ).map_values(|t: SequencerTrack| t.name@),
            r.2@ == distinct_instruments(final(self).spec_tracks()),
            final(self).spec_generation() != old(self).spec_generation(),
            final(self).spec_arrangement() == old(self).spec_arrangement(),
            final(self).spec_signatures() == old(self).spec_signatures(),
            final(self).spec_next_pattern_id() == old(self).spec_next_pattern_id(),
            final(self).spec_next_track_id() == old(self).spec_next_track_id(),
            old(self).wf() ==> final(self).wf(),
    {
        let ghost arr = self.spec_arrangement();
        let ghost used_p = |p: Pattern| uses_pattern(arr, p.spec_id());
        let ghost unused_p = |p: Pattern| !uses_pattern(arr, p.spec_id());
        let mut src: Vec<Pattern> = Vec::new();
        std::mem::swap(&mut src, &mut self.patterns);
        let ghost orig = src@;
        let mut kept: Vec<Pattern> = Vec::new();
        let mut removed: Vec<String> = Vec::new();
        let mut i: usize = 0;
        proof {
            reveal(Seq::filter);
            assert(orig.subrange(0, 0).filter(used_p) =~= Seq::<Pattern>::empty());
            assert(orig.subrange(0, 0).filter(unused_p) =~= Seq::<Pattern>::empty());
            assert(orig.subrange(0, 0) =~= Seq::<Pattern>::empty());
            assert(src@ =~= orig.subrange(0, orig.len() as int));
            assert(orig.len() == src.len());
            assert(removed@.map_values(|n: String| n@) =~= Seq::<Seq<char>>::empty());
        }
        while src.len() > 0
            invariant
                i <= orig.len(),
                orig.len() <= usize::MAX,
                src@ == orig.subrange(i as int, orig.len() as int),
                arr == self.spec_arrangement(),
                used_p == (|p: Pattern| uses_pattern(arr, p.spec_id())),
                unused_p == (|p: Pattern| !uses_pattern(arr, p.spec_id())),
                kept@ == orig.subrange(0, i as int).filter(used_p),
                removed@.map_values(|n: String| n@) == orig.subrange(0, i as int).filter(unused_p).map_values(|p: Pattern| p.spec_name()),
            decreases src@.len(),
        {
            let p = src.remove(0);
            proof {
                reveal(Seq::filter);
                assert(p == orig[i as int]);
                let pre = orig.subrange(0, i + 1);
                assert(pre.drop_last() =~= orig.subrange(0, i as int));
                assert(pre.last() == p);
                assert(src@ =~= orig.subrange(i + 1, orig.len() as int));
            }
            if arrangement_uses_pattern(&self.arrangement, p.id()) {
                kept.push(p);
            } else {
                let ghost before = removed@;
                let nm = p.name().clone();
                removed.push(nm);
                proof {
                    let pre = orig.subrange(0, i + 1);
                    assert(pre.filter(unused_p) == orig.subrange(0, i as int).filter(unused_p).push(p));
                    assert(removed@.map_values(|n: String| n@) =~= before.map_values(|n: String| n@).push(p.spec_name()));
                    assert(pre.filter(unused_p).map_values(|q: Pattern| q.spec_name()) =~= orig.subrange(0, i as int).filter(unused_p).map_values(|q: Pattern| q.spec_name()).push(p.spec_name()));
                }
            }
            i = i + 1;
        }
        proof {
            assert(orig.subrange(0, orig.len() as int) =~= orig);
        }
        self.patterns = kept;
        self.bump_structure();

        let ghost used_t = |t: SequencerTrack| uses_track(arr, t.id);
        let ghost unused_t = |t: SequencerTrack| !uses_track(arr, t.id);
        let mut tsrc: Vec<SequencerTrack> = Vec::new();
        std::mem::swap(&mut tsrc, &mut self.tracks);
        let ghost torig = tsrc@;
        let mut tkept: Vec<SequencerTrack> = Vec::new();
        let mut tremoved: Vec<String> = Vec::new();
        let mut j: usize = 0;
        proof {
            reveal(Seq::filter);
            assert(torig.subrange(0, 0).filter(used_t) =~= Seq::<SequencerTrack>::empty());
            assert(torig.subrange(0, 0).filter(unused_t) =~= Seq::<SequencerTrack>::empty());
            assert(tsrc@ =~= torig.subrange(0, torig.len() as int));
            assert(torig.len() == tsrc.len());
            assert(tremoved@.map_values(|n: String| n@) =~= Seq::<Seq<char>>::empty());
        }
        while tsrc.len() > 0
            invariant
                j <= torig.len(),
                torig.len() <= usize::MAX,
                tsrc@ == torig.subrange(j as int, torig.len() as int),
                arr == self.spec_arrangement(),
                used_t == (|t: SequencerTrack| uses_track(arr, t.id)),
                unused_t == (|t: SequencerTrack| !uses_track(arr, t.id)),
                tkept@ == torig.subrange(0, j as int).filter(used_t),
                tremoved@.map_values(|n: String| n@) == torig.subrange(0, j as int).filter(unused_t).map_values(|t: SequencerTrack| t.name@),
            decreases tsrc@.len(),
        {
            let t = tsrc.remove(0);
            proof {
                reveal(Seq::filter);
                assert(t == torig[j as int]);
                let pre = torig.subrange(0, j + 1);
                assert(pre.drop_last() =~= torig.subrange(0, j as int));
                assert(pre.last() == t);
                assert(tsrc@ =~= torig.subrange(j + 1, torig.len() as int));
            }
            if arrangement_uses_track(&self.arrangement, t.id) {
                tkept.push(t);
            } else {
                let ghost before = tremoved@;
                let nm = t.name.clone();
                tremoved.push(nm);
                proof {
                    let pre = torig.subrange(0, j + 1);
                    assert(pre.filter(unused_t) == torig.subrange(0, j as int).filter(unused_t).push(t));
                    assert(tremoved@.map_values(|n: String| n@) =~= before.map_values(|n: String| n@).push(t.name@));
                    assert(pre.filter(unused_t).map_values(|q: SequencerTrack| q.name@) =~= torig.subrange(0, j as int).filter(unused_t).map_values(|q: SequencerTrack| q.name@).push(t.name@));
                }
            }
            j = j + 1;
        }
        proof {
            assert(torig.subrange(0, torig.len() as int) =~= torig);
        }
        self.tracks = tkept;

        let mut instruments: Vec<InstrumentId> = Vec::new();
        let mut k: usize = 0;
        proof {
            assert(self.spec_tracks().subrange(0, 0) =~= Seq::<SequencerTrack>::empty());
        }
        while k < self.tracks.len()
            invariant
                k <= self.spec_tracks().len(),
                instruments@ == distinct_instruments(self.spec_tracks().subrange(0, k as int)),
            decreases self.spec_tracks().len() - k,
        {
            let inst = self.tracks[k].instrument;
            let mut seen = false;
            let mut m: usize = 0;
            while m < instruments.len()
                invariant
                    m <= instruments@.len(),
                    seen == (exists|q: int| 0 <= q < m && instruments@[q] == inst),
                decreases instruments@.len() - m,
            {
                if instruments[m] == inst {
                    seen = true;
                }
                m = m + 1;
            }
            proof {
                let pre = self.spec_tracks().subrange(0, k + 1);
                assert(pre.drop_last() =~= self.spec_tracks().subrange(0, k as int));
                assert(pre.last().instrument == inst);
                if seen {
                    let q = choose|q: int| 0 <= q < m && instruments@[q] == inst;
                    assert(instruments@.contains(inst));
                } else {
                    assert(!instruments@.contains(inst));
                }
            }
            if !seen {
                instruments.push(inst);
            }
            k = k + 1;
        }
        proof {
            assert(self.spec_tracks().subrange(0, self.spec_tracks().len() as int) =~= self.spec_tracks());
            if old(self).wf() {
                lemma_patterns_filter_wf(orig, old(self).spec_next_pattern_id(), used_p);
                lemma_tracks_filter_wf(torig, old(self).spec_next_track_id(), used_t);
            }
        }
        (removed, tremoved, instruments)
    }


    /// Get a track by id for editing. Whatever the caller writes through the
    /// reference lands in that track's slot; nothing else changes.
    pub fn track_mut(&mut self, id: TrackId) -> (r: Option<&mut SequencerTrack>)
        ensures
            same_pools(*old(self), *final(self)),
            ({
                let i = first_index(old(self).spec_tracks(), track_is(id));
                match r {
                    Some(t) => i >= 0 && *t == old(self).spec_tracks()[i] && final(self).spec_tracks()
                        == old(self).spec_tracks().update(i, *final(t)),
                    None => i == -1 && final(self).spec_tracks() == old(self).spec_tracks(),
                }
            }),
            final(self).spec_patterns() == old(self).spec_patterns(),
            final(self).spec_arrangement() == old(self).spec_arrangement(),
            final(self).spec_signatures() == old(self).spec_signatures(),
            final(self).spec_next_pattern_id() == old(self).spec_next_pattern_id(),
            final(self).spec_next_track_id() == old(self).spec_next_track_id(),
            final(self).spec_generation() == old(self).spec_generation(),
    {
        proof {
            lemma_first_index(old(self).spec_tracks(), track_is(id));
        }
        match self.track_index(id) {
            Some(i) => Some(&mut self.tracks[i]),
            None => None,
        }
    }


    /// Get a pattern by id for editing. The structural generation is bumped
    /// whether or not the caller then changes anything (the caller may change
    /// the pattern's length).
    pub fn pattern_mut(&mut self, id: PatternId) -> (r: Option<&mut Pattern>)
        ensures
            same_pools(*old(self), *final(self)),
            ({
                let i = first_index(old(self).spec_patterns(), pattern_is::<M>(id));
                match r {
                    Some(p) => i >= 0 && *p == old(self).spec_patterns()[i] && final(self).spec_patterns()
                        == old(self).spec_patterns().update(i, *final(p)),
                    None => i == -1 && final(self).spec_patterns() == old(self).spec_patterns(),
                }
            }),
            final(self).spec_tracks() == old(self).spec_tracks(),
            final(self).spec_arrangement() == old(self).spec_arrangement(),
            final(self).spec_signatures() == old(self).spec_signatures(),
            final(self).spec_next_pattern_id() == old(self).spec_next_pattern_id(),
            final(self).spec_next_track_id() == old(self).spec_next_track_id(),
            final(self).spec_generation() != old(self).spec_generation(),
    {
        proof {
            lemma_first_index(old(self).spec_patterns(), pattern_is::<M>(id));
        }
        self.bump_structure();
        match self.pattern_index(id) {
            Some(i) => Some(&mut self.patterns[i]),
            None => None,
        }
    }

    /// All tracks, for editing in place, in display order.
    pub fn tracks_mut(&mut self) -> (r: &mut [SequencerTrack])
        ensures
            final(self).spec_generation() == old(self).spec_generation(),
            same_pools(*old(self), *final(self)),
            r@ == old(self).spec_tracks(),
            final(self).spec_tracks() == final(r)@,
            final(self).spec_patterns() == old(self).spec_patterns(),
            final(self).spec_arrangement() == old(self).spec_arrangement(),
            final(self).spec_signatures() == old(self).spec_signatures(),
            final(self).spec_next_pattern_id() == old(self).spec_next_pattern_id(),
            final(self).spec_next_track_id() == old(self).spec_next_track_id(),
    {
        self.tracks.as_mut_slice()
    }

}

/// How many of the first `n` patterns are bound to the Note Grid graph `id`.
pub open spec fn binding_count(ps: Seq<Pattern>, id: NoteGraphId, n: int) -> nat
    decreases n,
{
    if n <= 0 {
        0
    } else {
        binding_count(ps, id, n - 1) + if ps[n - 1].spec_note_graph() == Some(id) {
            1nat
        } else {
            0nat
        }
    }
}

/// Whether the song has a track with id `t`.
pub open spec fn has_track(ts: Seq<SequencerTrack>, t: TrackId) -> bool {
    exists|k: int| 0 <= k < ts.len() && (#[trigger] ts[k]).id == t
}

/// The assignment made of the first `n` requested tracks: each track that
/// exists, once, in request order.
pub open spec fn assignment_upto(requested: Seq<TrackId>, ts: Seq<SequencerTrack>, n: int) -> Seq<TrackId>
    decreases n,
{
    if n <= 0 {
        Seq::empty()
    } else {
        let prev = assignment_upto(requested, ts, n - 1);
        let t = requested[n - 1];
        if has_track(ts, t) && !prev.contains(t) {
            prev.push(t)
        } else {
            prev
        }
    }
}

/// The count of bindings only grows with the prefix and never passes it.
proof fn lemma_binding_count_bound(ps: Seq<Pattern>, id: NoteGraphId, n: int)
    requires
        0 <= n <= ps.len(),
    ensures
        binding_count(ps, id, n) <= n,
    decreases n,
{
    if n > 0 {
        lemma_binding_count_bound(ps, id, n - 1);
    }
}

/// A graph no pattern is bound to has no usage: after `remove_note_graph`
/// unbinds every pattern, `note_graph_usage` of the removed id is 0.
pub proof fn lemma_unbound_graph_unused(ps: Seq<Pattern>, id: NoteGraphId, n: int)
    requires
        0 <= n <= ps.len(),
        forall|k: int| 0 <= k < ps.len() ==> (#[trigger] ps[k]).spec_note_graph() != Some(id),
    ensures
        binding_count(ps, id, n) == 0,
    decreases n,
{
    if n > 0 {
        lemma_unbound_graph_unused(ps, id, n - 1);
    }
}

/// A Mod Grid assignment names only tracks the song has, each at most once.
pub proof fn lemma_assignment_existing_distinct(requested: Seq<TrackId>, ts: Seq<SequencerTrack>, n: int)
    requires
        0 <= n <= requested.len(),
    ensures
        forall|k: int| 0 <= k < assignment_upto(requested, ts, n).len() ==> has_track(ts, #[trigger] assignment_upto(requested, ts, n)[k]),
        forall|a: int, b: int| 0 <= a < b < assignment_upto(requested, ts, n).len() ==> assignment_upto(requested, ts, n)[a]
            != assignment_upto(requested, ts, n)[b],
    decreases n,
{
    if n > 0 {
        lemma_assignment_existing_distinct(requested, ts, n - 1);
        let prev = assignment_upto(requested, ts, n - 1);
        let t = requested[n - 1];
        if has_track(ts, t) && !prev.contains(t) {
            let cur = prev.push(t);
            assert forall|k: int| 0 <= k < cur.len() implies has_track(ts, #[trigger] cur[k]) by {
                if k < prev.len() {
                    assert(cur[k] == prev[k]);
                }
            }
            assert forall|a: int, b: int| 0 <= a < b < cur.len() implies cur[a] != cur[b] by {
                if b == prev.len() {
                    assert(cur[a] == prev[a]);
                    assert(prev.contains(prev[a]));
                } else {
                    assert(cur[a] == prev[a]);
                    assert(cur[b] == prev[b]);
                }
            }
        }
    }
}

/// Removing a placement that `place_pattern` just made undoes it: when no
/// placement started at `x.start` on `x.track_id`, `x` inserted at any point
/// is the first placement of its pattern, track and start, and removing that
/// one gives the arrangement back.
pub proof fn lemma_place_then_remove_restores<M>(a: Seq<PatternPlacement<M>>, x: PatternPlacement<M>, q: int)
    requires
        0 <= q <= a.len(),
        !(exists|k: int| 0 <= k < a.len() && (#[trigger] a[k]).start == x.start && a[k].track_id == x.track_id),
    ensures
        first_index(a.insert(q, x), placement_is::<M>(x.pattern_id, x.track_id, x.start)) == q,
        a.insert(q, x).remove(q) == a,
{
    let b = a.insert(q, x);
    let matching = placement_is::<M>(x.pattern_id, x.track_id, x.start);
    assert forall|k: int| 0 <= k < q implies !matching(#[trigger] b[k]) by {
        assert(b[k] == a[k]);
    }
    lemma_first_index_at(b, matching, q);
    assert(b.remove(q) =~= a);
}

/// Moving a track back undoes `reorder_track`: after moving the track at
/// `from` to `to`, moving the track at `to` to `from` restores the order.
pub proof fn lemma_reorder_back_restores<A>(s: Seq<A>, from: int, to: int)
    requires
        0 <= from < s.len(),
        0 <= to < s.len(),
    ensures
        ({
            let moved = s.remove(from).insert(to, s[from]);
            moved.remove(to).insert(from, moved[to]) == s
        }),
{
    let moved = s.remove(from).insert(to, s[from]);
    assert(moved[to] == s[from]);
    assert(moved.remove(to) =~= s.remove(from));
    assert(s.remove(from).insert(from, s[from]) =~= s);
}

/// Whether `v` holds `t`.
fn holds_track(v: &Vec<TrackId>, t: TrackId) -> (r: bool)
    ensures
        r == v@.contains(t),
{
    let mut i: usize = 0;
    while i < v.len()
        invariant
            i <= v@.len(),
            forall|k: int| 0 <= k < i ==> v@[k] != t,
        decreases v@.len() - i,
    {
        if v[i] == t {
            return true;
        }
        i = i + 1;
    }
    false
}

impl<M: Copy, N, D> Song<M, N, D> {
    // === Note Grid pool ===

    /// The index of the pooled Note Grid graph with this id.
    fn note_graph_index(&self, id: NoteGraphId) -> (r: Option<usize>)
        ensures
            match r {
                Some(i) => i == first_index(self.spec_note_graphs(), note_graph_is::<N>(id)),
                None => first_index(self.spec_note_graphs(), note_graph_is::<N>(id)) == -1,
            },
    {
        let mut i: usize = 0;
        while i < self.note_graphs.len()
            invariant
                i <= self.spec_note_graphs().len(),
                forall|k: int| 0 <= k < i ==> !note_graph_is::<N>(id)(#[trigger] self.spec_note_graphs()[k]),
            decreases self.spec_note_graphs().len() - i,
        {
            if self.note_graphs[i].id() == id {
                proof {
                    lemma_first_index_at(self.spec_note_graphs(), note_graph_is::<N>(id), i as int);
                }
                return Some(i);
            }
            i = i + 1;
        }
        proof {
            lemma_first_index(self.spec_note_graphs(), note_graph_is::<N>(id));
        }
        None
    }

    /// Create a new empty Note Grid graph in the pool under the next graph
    /// id, returning that id.
    pub fn create_note_graph(&mut self, name: String) -> (id: NoteGraphId)
        ensures
            final(self).spec_generation() == old(self).spec_generation(),
            id.0 == old(self).spec_next_note_graph_id(),
            final(self).spec_next_note_graph_id() == (if old(self).spec_next_note_graph_id() == u32::MAX {
                u32::MAX
            } else {
                (old(self).spec_next_note_graph_id() + 1) as u32
            }),
            final(self).spec_note_graphs().len() == old(self).spec_note_graphs().len() + 1,
            final(self).spec_note_graphs().drop_last() == old(self).spec_note_graphs(),
            final(self).spec_note_graphs().last().spec_id() == id,
            final(self).spec_note_graphs().last().spec_name() == name@,
            final(self).spec_note_graphs().last().node_seq().len() == 0,
            final(self).spec_note_graphs().last().conn_seq().len() == 0,
            final(self).spec_note_graphs().last().is_settled(),
            final(self).spec_mod_graphs() == old(self).spec_mod_graphs(),
            final(self).spec_next_mod_graph_id() == old(self).spec_next_mod_graph_id(),
            final(self).spec_mod_generation() == old(self).spec_mod_generation(),
            same_song(*old(self), *final(self)),
            old(self).pools_wf() && old(self).spec_next_note_graph_id() < u32::MAX ==> final(self).pools_wf(),
            old(self).pools_wf() ==> forall|k: int| 0 <= k < old(self).spec_note_graphs().len() ==> (#[trigger] old(self).spec_note_graphs()[k]).spec_id() != id,
    {
        let id = NoteGraphId(self.next_note_graph_id);
        self.next_note_graph_id = self.next_note_graph_id.saturating_add(1);
        self.note_graphs.push(NoteGraph::new(id, name));
        proof {
            assert(self.spec_note_graphs().drop_last() =~= old(self).spec_note_graphs());
        }
        id
    }

    /// Add a pre-built graph to the pool, keeping the next graph id above
    /// every pooled id. Refused (`false`, nothing changes) when a graph with
    /// its id is already pooled.
    pub fn insert_note_graph(&mut self, graph: NoteGraph<N>) -> (r: bool)
        ensures
            final(self).spec_generation() == old(self).spec_generation(),
            r == (first_index(old(self).spec_note_graphs(), note_graph_is::<N>(graph.spec_id())) == -1),
            r ==> final(self).spec_note_graphs() == old(self).spec_note_graphs().push(graph),
            r ==> final(self).spec_next_note_graph_id() == (if graph.spec_id().0 >= old(self).spec_next_note_graph_id() {
                if graph.spec_id().0 == u32::MAX {
                    u32::MAX
                } else {
                    (graph.spec_id().0 + 1) as u32
                }
            } else {
                old(self).spec_next_note_graph_id()
            }),
            !r ==> final(self).spec_note_graphs() == old(self).spec_note_graphs()
                && final(self).spec_next_note_graph_id() == old(self).spec_next_note_graph_id(),
            final(self).spec_mod_graphs() == old(self).spec_mod_graphs(),
            final(self).spec_next_mod_graph_id() == old(self).spec_next_mod_graph_id(),
            final(self).spec_mod_generation() == old(self).spec_mod_generation(),
            same_song(*old(self), *final(self)),
            old(self).pools_wf() && graph.spec_id().0 < u32::MAX ==> final(self).pools_wf(),
    {
        proof {
            lemma_first_index(old(self).spec_note_graphs(), note_graph_is::<N>(graph.spec_id()));
        }
        if self.note_graph_index(graph.id()).is_some() {
            return false;
        }
        if graph.id().0 >= self.next_note_graph_id {
            self.next_note_graph_id = graph.id().0.saturating_add(1);
        }
        self.note_graphs.push(graph);
        proof {
            let gs = self.spec_note_graphs();
            if old(self).pools_wf() && gs.last().spec_id().0 < u32::MAX {
                assert forall|a: int, b: int| 0 <= a < b < gs.len() implies gs[a].spec_id() != gs[b].spec_id() by {
                    if b == gs.len() - 1 {
                        assert(!note_graph_is::<N>(gs.last().spec_id())(old(self).spec_note_graphs()[a]));
                    } else {
                        assert(gs[a] == old(self).spec_note_graphs()[a]);
                        assert(gs[b] == old(self).spec_note_graphs()[b]);
                    }
                }
                assert forall|a: int| 0 <= a < gs.len() implies (#[trigger] gs[a]).spec_id().0 < self.spec_next_note_graph_id() by {
                    if a < gs.len() - 1 {
                        assert(gs[a] == old(self).spec_note_graphs()[a]);
                    }
                }
            }
        }
        true
    }

    /// The pooled Note Grid graph with this id.
    pub fn note_graph(&self, id: NoteGraphId) -> (r: Option<&NoteGraph<N>>)
        ensures
            ({
                let i = first_index(self.spec_note_graphs(), note_graph_is::<N>(id));
                match r {
                    Some(g) => i >= 0 && *g == self.spec_note_graphs()[i],
                    None => i == -1,
                }
            }),
    {
        proof {
            lemma_first_index(self.spec_note_graphs(), note_graph_is::<N>(id));
        }
        match self.note_graph_index(id) {
            Some(i) => Some(&self.note_graphs[i]),
            None => None,
        }
    }

    /// The pooled Note Grid graph with this id, for editing in place.
    pub fn note_graph_mut(&mut self, id: NoteGraphId) -> (r: Option<&mut NoteGraph<N>>)
        ensures
            final(self).spec_generation() == old(self).spec_generation(),
            ({
                let i = first_index(old(self).spec_note_graphs(), note_graph_is::<N>(id));
                match r {
                    Some(g) => i >= 0 && *g == old(self).spec_note_graphs()[i] && final(self).spec_note_graphs()
                        == old(self).spec_note_graphs().update(i, *final(g)),
                    None => i == -1 && final(self).spec_note_graphs() == old(self).spec_note_graphs(),
                }
            }),
            final(self).spec_next_note_graph_id() == old(self).spec_next_note_graph_id(),
            final(self).spec_mod_graphs() == old(self).spec_mod_graphs(),
            final(self).spec_next_mod_graph_id() == old(self).spec_next_mod_graph_id(),
            final(self).spec_mod_generation() == old(self).spec_mod_generation(),
            same_song(*old(self), *final(self)),
    {
        proof {
            lemma_first_index(old(self).spec_note_graphs(), note_graph_is::<N>(id));
        }
        match self.note_graph_index(id) {
            Some(i) => Some(&mut self.note_graphs[i]),
            None => None,
        }
    }

    /// All pooled Note Grid graphs, in insertion order.
    pub fn note_graphs(&self) -> (r: &[NoteGraph<N>])
        ensures
            r@ == self.spec_note_graphs(),
    {
        self.note_graphs.as_slice()
    }

    /// The pooled Note Grid graphs: the pool a note's own graph binding is
    /// resolved against.
    pub fn note_graph_pool(&self) -> (r: &[NoteGraph<N>])
        ensures
            r@ == self.spec_note_graphs(),
    {
        self.note_graphs.as_slice()
    }

    /// All pooled Note Grid graphs, for editing in place.
    pub fn note_graphs_mut(&mut self) -> (r: &mut [NoteGraph<N>])
        ensures
            final(self).spec_generation() == old(self).spec_generation(),
            r@ == old(self).spec_note_graphs(),
            final(self).spec_note_graphs() == final(r)@,
            final(self).spec_next_note_graph_id() == old(self).spec_next_note_graph_id(),
            final(self).spec_mod_graphs() == old(self).spec_mod_graphs(),
            final(self).spec_next_mod_graph_id() == old(self).spec_next_mod_graph_id(),
            final(self).spec_mod_generation() == old(self).spec_mod_generation(),
            same_song(*old(self), *final(self)),
    {
        self.note_graphs.as_mut_slice()
    }

    /// How many patterns are bound to the Note Grid graph `id`.
    pub fn note_graph_usage(&self, id: NoteGraphId) -> (r: usize)
        ensures
            r == binding_count(self.spec_patterns(), id, self.spec_patterns().len() as int),
    {
        let mut count: usize = 0;
        let mut i: usize = 0;
        while i < self.patterns.len()
            invariant
                i <= self.spec_patterns().len(),
                count == binding_count(self.spec_patterns(), id, i as int),
            decreases self.spec_patterns().len() - i,
        {
            proof {
                lemma_binding_count_bound(self.spec_patterns(), id, i + 1);
            }
            if self.patterns[i].note_graph() == Some(id) {
                count = count + 1;
            }
            i = i + 1;
        }
        count
    }

    /// Take a graph out of the pool and unbind every pattern bound to it
    /// (they fall back to plain playback). `None`, and nothing changes, when
    /// no pooled graph has this id.
    pub fn remove_note_graph(&mut self, id: NoteGraphId) -> (r: Option<NoteGraph<N>>)
        ensures
            ({
                let i = first_index(old(self).spec_note_graphs(), note_graph_is::<N>(id));
                match r {
                    Some(g) => {
                        &&& i >= 0
                        &&& g == old(self).spec_note_graphs()[i]
                        &&& final(self).spec_note_graphs() == old(self).spec_note_graphs().remove(i)
                        &&& final(self).spec_patterns().len() == old(self).spec_patterns().len()
                        &&& forall|k: int| 0 <= k < old(self).spec_patterns().len() ==> {
                            let p = #[trigger] final(self).spec_patterns()[k];
                            let q = old(self).spec_patterns()[k];
                            &&& p.spec_id() == q.spec_id()
                            &&& p.spec_name() == q.spec_name()
                            &&& p.spec_length() == q.spec_length()
                            &&& p.note_seq() == q.note_seq()
                            &&& p.next_id_value() == q.next_id_value()
                            &&& p.spec_note_graph() == (if q.spec_note_graph() == Some(id) {
                                None
                            } else {
                                q.spec_note_graph()
                            })
                        }
                    },
                    None => i == -1 && final(self).spec_note_graphs() == old(self).spec_note_graphs()
                        && final(self).spec_patterns() == old(self).spec_patterns(),
                }
            }),
            final(self).spec_next_note_graph_id() == old(self).spec_next_note_graph_id(),
            final(self).spec_mod_graphs() == old(self).spec_mod_graphs(),
            final(self).spec_next_mod_graph_id() == old(self).spec_next_mod_graph_id(),
            final(self).spec_mod_generation() == old(self).spec_mod_generation(),
            final(self).spec_next_pattern_id() == old(self).spec_next_pattern_id(),
            final(self).spec_tracks() == old(self).spec_tracks(),
            final(self).spec_arrangement() == old(self).spec_arrangement(),
            final(self).spec_signatures() == old(self).spec_signatures(),
            final(self).spec_next_track_id() == old(self).spec_next_track_id(),
            final(self).spec_generation() == old(self).spec_generation(),
            old(self).wf() ==> final(self).wf(),
            old(self).pools_wf() ==> final(self).pools_wf(),
            r is Some ==> forall|k: int| 0 <= k < final(self).spec_patterns().len() ==> (#[trigger] final(self).spec_patterns()[k]).spec_note_graph() != Some(id),
    {
        proof {
            lemma_first_index(old(self).spec_note_graphs(), note_graph_is::<N>(id));
        }
        let pos = match self.note_graph_index(id) {
            Some(p) => p,
            None => return None,
        };
        let mut i: usize = 0;
        while i < self.patterns.len()
            invariant
                i <= self.spec_patterns().len(),
                self.spec_patterns().len() == old(self).spec_patterns().len(),
                forall|k: int| 0 <= k < old(self).spec_patterns().len() ==> {
                    let p = #[trigger] self.spec_patterns()[k];
                    let q = old(self).spec_patterns()[k];
                    &&& p.spec_id() == q.spec_id()
                    &&& p.spec_name() == q.spec_name()
                    &&& p.spec_length() == q.spec_length()
                    &&& p.note_seq() == q.note_seq()
                    &&& p.next_id_value() == q.next_id_value()
                    &&& p.spec_note_graph() == (if k < i && q.spec_note_graph() == Some(id) {
                        None
                    } else {
                        q.spec_note_graph()
                    })
                },
                self.spec_note_graphs() == old(self).spec_note_graphs(),
                self.spec_next_note_graph_id() == old(self).spec_next_note_graph_id(),
                self.spec_mod_graphs() == old(self).spec_mod_graphs(),
                self.spec_next_mod_graph_id() == old(self).spec_next_mod_graph_id(),
                self.spec_mod_generation() == old(self).spec_mod_generation(),
                self.spec_next_pattern_id() == old(self).spec_next_pattern_id(),
                self.spec_tracks() == old(self).spec_tracks(),
                self.spec_arrangement() == old(self).spec_arrangement(),
                self.spec_signatures() == old(self).spec_signatures(),
                self.spec_next_track_id() == old(self).spec_next_track_id(),
                self.spec_generation() == old(self).spec_generation(),
                pos < self.spec_note_graphs().len(),
            decreases self.spec_patterns().len() - i,
        {
            if self.patterns[i].note_graph() == Some(id) {
                self.patterns[i].set_note_graph(None);
            }
            i = i + 1;
        }
        let removed = self.note_graphs.remove(pos);
        proof {
            let gs = old(self).spec_note_graphs();
            if old(self).pools_wf() {
                assert forall|a: int, b: int| 0 <= a < b < self.spec_note_graphs().len()
                    implies self.spec_note_graphs()[a].spec_id() != self.spec_note_graphs()[b].spec_id() by {
                    let a2 = if a < pos { a } else { a + 1 };
                    let b2 = if b < pos { b } else { b + 1 };
                    assert(self.spec_note_graphs()[a] == gs[a2]);
                    assert(self.spec_note_graphs()[b] == gs[b2]);
                }
                assert forall|a: int| 0 <= a < self.spec_note_graphs().len()
                    implies (#[trigger] self.spec_note_graphs()[a]).spec_id().0 < self.spec_next_note_graph_id() by {
                    let a2 = if a < pos { a } else { a + 1 };
                    assert(self.spec_note_graphs()[a] == gs[a2]);
                }
            }
            if old(self).wf() {
                let ps = self.spec_patterns();
                assert forall|a: int, b: int| 0 <= a < b < ps.len() implies ps[a].spec_id() != ps[b].spec_id() by {
                    assert(ps[a].spec_id() == old(self).spec_patterns()[a].spec_id());
                    assert(ps[b].spec_id() == old(self).spec_patterns()[b].spec_id());
                }
                assert forall|a: int| 0 <= a < ps.len() implies (#[trigger] ps[a]).spec_id().0 < self.spec_next_pattern_id() by {
                    assert(ps[a].spec_id() == old(self).spec_patterns()[a].spec_id());
                }
            }
        }
        Some(removed)
    }

    /// Repair every pooled Note Grid graph after a load: drop the connections
    /// that fail validation, then recompute each graph's evaluation order. A
    /// graph that still fails keeps its previous order.
    pub fn rebuild_note_graphs(&mut self)
        ensures
            final(self).spec_generation() == old(self).spec_generation(),
            final(self).spec_note_graphs().len() == old(self).spec_note_graphs().len(),
            forall|k: int| 0 <= k < old(self).spec_note_graphs().len() ==> {
                let g = #[trigger] final(self).spec_note_graphs()[k];
                let h = old(self).spec_note_graphs()[k];
                &&& g.spec_id() == h.spec_id()
                &&& g.spec_name() == h.spec_name()
                &&& g.node_seq() == h.node_seq()
                &&& g.conn_seq() == sanitized_upto(h.conn_seq(), h.conn_seq().len() as int)
                &&& conns_repaired(g.conn_seq())
                &&& (note_validation(g.node_seq(), g.conn_seq()) is Ok ==> g.is_settled())
            },
            final(self).spec_next_note_graph_id() == old(self).spec_next_note_graph_id(),
            final(self).spec_mod_graphs() == old(self).spec_mod_graphs(),
            final(self).spec_next_mod_graph_id() == old(self).spec_next_mod_graph_id(),
            final(self).spec_mod_generation() == old(self).spec_mod_generation(),
            same_song(*old(self), *final(self)),
            old(self).pools_wf() ==> final(self).pools_wf(),
    {
        let mut i: usize = 0;
        while i < self.note_graphs.len()
            invariant
                i <= self.spec_note_graphs().len(),
                self.spec_note_graphs().len() == old(self).spec_note_graphs().len(),
                forall|k: int| i <= k < old(self).spec_note_graphs().len() ==> #[trigger] self.spec_note_graphs()[k] == old(self).spec_note_graphs()[k],
                forall|k: int| 0 <= k < i ==> {
                    let g = #[trigger] self.spec_note_graphs()[k];
                    let h = old(self).spec_note_graphs()[k];
                    &&& g.spec_id() == h.spec_id()
                    &&& g.spec_name() == h.spec_name()
                    &&& g.node_seq() == h.node_seq()
                    &&& g.conn_seq() == sanitized_upto(h.conn_seq(), h.conn_seq().len() as int)
                    &&& conns_repaired(g.conn_seq())
                    &&& (note_validation(g.node_seq(), g.conn_seq()) is Ok ==> g.is_settled())
                },
                self.spec_next_note_graph_id() == old(self).spec_next_note_graph_id(),
                self.spec_mod_graphs() == old(self).spec_mod_graphs(),
                self.spec_next_mod_graph_id() == old(self).spec_next_mod_graph_id(),
                self.spec_mod_generation() == old(self).spec_mod_generation(),
                same_song(*old(self), *self),
            decreases self.spec_note_graphs().len() - i,
        {
            self.note_graphs[i].sanitize_connections();
            let _ = self.note_graphs[i].rebuild_derived();
            i = i + 1;
        }
        proof {
            let gs = self.spec_note_graphs();
            let hs = old(self).spec_note_graphs();
            if old(self).pools_wf() {
                assert forall|a: int, b: int| 0 <= a < b < gs.len() implies gs[a].spec_id() != gs[b].spec_id() by {
                    assert(gs[a].spec_id() == hs[a].spec_id());
                    assert(gs[b].spec_id() == hs[b].spec_id());
                }
                assert forall|a: int| 0 <= a < gs.len() implies (#[trigger] gs[a]).spec_id().0 < self.spec_next_note_graph_id() by {
                    assert(gs[a].spec_id() == hs[a].spec_id());
                }
            }
        }
    }
}

impl<M: Copy, N, D> Song<M, N, D> {
    // === Mod Grid pool ===

    /// Current Mod Grid generation: bumped by every Mod Grid edit, so the
    /// engine knows when to rebuild its running instances.
    pub fn mod_grid_generation(&self) -> (r: u64)
        ensures
            r == self.spec_mod_generation(),
    {
        self.mod_grid_generation
    }

    fn bump_mod_grid(&mut self)
        ensures
            final(self).spec_mod_generation() == (if old(self).spec_mod_generation() == u64::MAX {
                0
            } else {
                old(self).spec_mod_generation() + 1
            }),
            final(self).spec_mod_graphs() == old(self).spec_mod_graphs(),
            final(self).spec_next_mod_graph_id() == old(self).spec_next_mod_graph_id(),
            final(self).spec_note_graphs() == old(self).spec_note_graphs(),
            final(self).spec_next_note_graph_id() == old(self).spec_next_note_graph_id(),
            same_song(*old(self), *final(self)),
    {
        self.mod_grid_generation = self.mod_grid_generation.wrapping_add(1);
    }

    /// The index of the pooled Mod Grid graph with this id.
    fn mod_graph_index(&self, id: ModGraphId) -> (r: Option<usize>)
        ensures
            match r {
                Some(i) => i == first_index(self.spec_mod_graphs(), mod_graph_is::<D>(id)),
                None => first_index(self.spec_mod_graphs(), mod_graph_is::<D>(id)) == -1,
            },
    {
        let mut i: usize = 0;
        while i < self.mod_graphs.len()
            invariant
                i <= self.spec_mod_graphs().len(),
                forall|k: int| 0 <= k < i ==> !mod_graph_is::<D>(id)(#[trigger] self.spec_mod_graphs()[k]),
            decreases self.spec_mod_graphs().len() - i,
        {
            if self.mod_graphs[i].id() == id {
                proof {
                    lemma_first_index_at(self.spec_mod_graphs(), mod_graph_is::<D>(id), i as int);
                }
                return Some(i);
            }
            i = i + 1;
        }
        proof {
            lemma_first_index(self.spec_mod_graphs(), mod_graph_is::<D>(id));
        }
        None
    }

    /// Create a new empty (global) Mod Grid graph in the pool under the next
    /// graph id, returning that id.
    pub fn create_mod_graph(&mut self, name: String) -> (id: ModGraphId)
        ensures
            final(self).spec_generation() == old(self).spec_generation(),
            id.0 == old(self).spec_next_mod_graph_id(),
            final(self).spec_next_mod_graph_id() == (if old(self).spec_next_mod_graph_id() == u32::MAX {
                u32::MAX
            } else {
                (old(self).spec_next_mod_graph_id() + 1) as u32
            }),
            final(self).spec_mod_graphs().len() == old(self).spec_mod_graphs().len() + 1,
            final(self).spec_mod_graphs().drop_last() == old(self).spec_mod_graphs(),
            final(self).spec_mod_graphs().last().spec_id() == id,
            final(self).spec_mod_graphs().last().spec_name() == name@,
            final(self).spec_mod_graphs().last().spec_scope() == ModGraphScope::Global,
            final(self).spec_mod_graphs().last().spec_assigned().len() == 0,
            final(self).spec_mod_graphs().last().node_seq().len() == 0,
            final(self).spec_mod_graphs().last().cable_seq().len() == 0,
            final(self).spec_mod_generation() != old(self).spec_mod_generation(),
            final(self).spec_note_graphs() == old(self).spec_note_graphs(),
            final(self).spec_next_note_graph_id() == old(self).spec_next_note_graph_id(),
            same_song(*old(self), *final(self)),
            old(self).pools_wf() && old(self).spec_next_mod_graph_id() < u32::MAX ==> final(self).pools_wf(),
            old(self).pools_wf() ==> forall|k: int| 0 <= k < old(self).spec_mod_graphs().len() ==> (#[trigger] old(self).spec_mod_graphs()[k]).spec_id() != id,
    {
        let id = ModGraphId(self.next_mod_graph_id);
        self.next_mod_graph_id = self.next_mod_graph_id.saturating_add(1);
        self.mod_graphs.push(ModGraph::new(id, name));
        self.bump_mod_grid();
        proof {
            assert(self.spec_mod_graphs().drop_last() =~= old(self).spec_mod_graphs());
        }
        id
    }

    /// Add a pre-built graph to the pool, keeping the next graph id above
    /// every pooled id. Refused (`false`, nothing changes) when a graph with
    /// its id is already pooled.
    pub fn insert_mod_graph(&mut self, graph: ModGraph<D>) -> (r: bool)
        ensures
            final(self).spec_generation() == old(self).spec_generation(),
            r == (first_index(old(self).spec_mod_graphs(), mod_graph_is::<D>(graph.spec_id())) == -1),
            r ==> final(self).spec_mod_graphs() == old(self).spec_mod_graphs().push(graph),
            r ==> final(self).spec_next_mod_graph_id() == (if graph.spec_id().0 >= old(self).spec_next_mod_graph_id() {
                if graph.spec_id().0 == u32::MAX {
                    u32::MAX
                } else {
                    (graph.spec_id().0 + 1) as u32
                }
            } else {
                old(self).spec_next_mod_graph_id()
            }),
            r ==> final(self).spec_mod_generation() != old(self).spec_mod_generation(),
            !r ==> final(self).spec_mod_graphs() == old(self).spec_mod_graphs()
                && final(self).spec_next_mod_graph_id() == old(self).spec_next_mod_graph_id()
                && final(self).spec_mod_generation() == old(self).spec_mod_generation(),
            final(self).spec_note_graphs() == old(self).spec_note_graphs(),
            final(self).spec_next_note_graph_id() == old(self).spec_next_note_graph_id(),
            same_song(*old(self), *final(self)),
            old(self).pools_wf() && graph.spec_id().0 < u32::MAX ==> final(self).pools_wf(),
    {
        proof {
            lemma_first_index(old(self).spec_mod_graphs(), mod_graph_is::<D>(graph.spec_id()));
        }
        if self.mod_graph_index(graph.id()).is_some() {
            return false;
        }
        if graph.id().0 >= self.next_mod_graph_id {
            self.next_mod_graph_id = graph.id().0.saturating_add(1);
        }
        self.mod_graphs.push(graph);
        self.bump_mod_grid();
        proof {
            let gs = self.spec_mod_graphs();
            if old(self).pools_wf() && gs.last().spec_id().0 < u32::MAX {
                assert forall|a: int, b: int| 0 <= a < b < gs.len() implies gs[a].spec_id() != gs[b].spec_id() by {
                    if b == gs.len() - 1 {
                        assert(!mod_graph_is::<D>(gs.last().spec_id())(old(self).spec_mod_graphs()[a]));
                    } else {
                        assert(gs[a] == old(self).spec_mod_graphs()[a]);
                        assert(gs[b] == old(self).spec_mod_graphs()[b]);
                    }
                }
                assert forall|a: int| 0 <= a < gs.len() implies (#[trigger] gs[a]).spec_id().0 < self.spec_next_mod_graph_id() by {
                    if a < gs.len() - 1 {
                        assert(gs[a] == old(self).spec_mod_graphs()[a]);
                    }
                }
            }
        }
        true
    }

    /// The pooled Mod Grid graph with this id.
    pub fn mod_graph(&self, id: ModGraphId) -> (r: Option<&ModGraph<D>>)
        ensures
            ({
                let i = first_index(self.spec_mod_graphs(), mod_graph_is::<D>(id));
                match r {
                    Some(g) => i >= 0 && *g == self.spec_mod_graphs()[i],
                    None => i == -1,
                }
            }),
    {
        proof {
            lemma_first_index(self.spec_mod_graphs(), mod_graph_is::<D>(id));
        }
        match self.mod_graph_index(id) {
            Some(i) => Some(&self.mod_graphs[i]),
            None => None,
        }
    }

    /// The pooled Mod Grid graph with this id, for editing in place; the
    /// generation is bumped when it is found, since the edit may change
    /// anything.
    pub fn mod_graph_mut(&mut self, id: ModGraphId) -> (r: Option<&mut ModGraph<D>>)
        ensures
            final(self).spec_generation() == old(self).spec_generation(),
            ({
                let i = first_index(old(self).spec_mod_graphs(), mod_graph_is::<D>(id));
                match r {
                    Some(g) => i >= 0 && *g == old(self).spec_mod_graphs()[i] && final(self).spec_mod_graphs()
                        == old(self).spec_mod_graphs().update(i, *final(g))
                        && final(self).spec_mod_generation() != old(self).spec_mod_generation(),
                    None => i == -1 && final(self).spec_mod_graphs() == old(self).spec_mod_graphs()
                        && final(self).spec_mod_generation() == old(self).spec_mod_generation(),
                }
            }),
            final(self).spec_next_mod_graph_id() == old(self).spec_next_mod_graph_id(),
            final(self).spec_note_graphs() == old(self).spec_note_graphs(),
            final(self).spec_next_note_graph_id() == old(self).spec_next_note_graph_id(),
            same_song(*old(self), *final(self)),
    {
        proof {
            lemma_first_index(old(self).spec_mod_graphs(), mod_graph_is::<D>(id));
        }
        match self.mod_graph_index(id) {
            Some(i) => {
                self.bump_mod_grid();
                Some(&mut self.mod_graphs[i])
            },
            None => None,
        }
    }

    /// All pooled Mod Grid graphs, in insertion order.
    pub fn mod_graphs(&self) -> (r: &[ModGraph<D>])
        ensures
            r@ == self.spec_mod_graphs(),
    {
        self.mod_graphs.as_slice()
    }

    /// The pooled Mod Grid graphs: the source the engine builds its running
    /// instances from.
    pub fn mod_graph_pool(&self) -> (r: &[ModGraph<D>])
        ensures
            r@ == self.spec_mod_graphs(),
    {
        self.mod_graphs.as_slice()
    }

    /// All pooled Mod Grid graphs, for editing in place; bumps the generation.
    pub fn mod_graphs_mut(&mut self) -> (r: &mut [ModGraph<D>])
        ensures
            final(self).spec_generation() == old(self).spec_generation(),
            r@ == old(self).spec_mod_graphs(),
            final(self).spec_mod_graphs() == final(r)@,
            final(self).spec_mod_generation() != old(self).spec_mod_generation(),
            final(self).spec_next_mod_graph_id() == old(self).spec_next_mod_graph_id(),
            final(self).spec_note_graphs() == old(self).spec_note_graphs(),
            final(self).spec_next_note_graph_id() == old(self).spec_next_note_graph_id(),
            same_song(*old(self), *final(self)),
    {
        self.bump_mod_grid();
        self.mod_graphs.as_mut_slice()
    }

    /// Set a Mod Grid graph's scope; a global graph loses its track
    /// assignments. `false`, and nothing changes, when no pooled graph has
    /// this id.
    pub fn set_mod_graph_scope(&mut self, id: ModGraphId, scope: ModGraphScope) -> (r: bool)
        ensures
            final(self).spec_generation() == old(self).spec_generation(),
            ({
                let i = first_index(old(self).spec_mod_graphs(), mod_graph_is::<D>(id));
                let old_g = old(self).spec_mod_graphs()[i];
                let g = final(self).spec_mod_graphs()[i];
                if i == -1 {
                    &&& !r
                    &&& final(self).spec_mod_graphs() == old(self).spec_mod_graphs()
                    &&& final(self).spec_mod_generation() == old(self).spec_mod_generation()
                } else {
                    &&& r
                    &&& final(self).spec_mod_graphs().len() == old(self).spec_mod_graphs().len()
                    &&& forall|k: int| 0 <= k < old(self).spec_mod_graphs().len() && k != i ==> #[trigger] final(self).spec_mod_graphs()[k] == old(self).spec_mod_graphs()[k]
                    &&& g.spec_scope() == scope
                    &&& g.spec_assigned() == (if scope == ModGraphScope::Global {
                        Seq::<TrackId>::empty()
                    } else {
                        old_g.spec_assigned()
                    })
                    &&& g.spec_id() == old_g.spec_id()
                    &&& g.spec_name() == old_g.spec_name()
                    &&& g.node_seq() == old_g.node_seq()
                    &&& g.cable_seq() == old_g.cable_seq()
                    &&& final(self).spec_mod_generation() != old(self).spec_mod_generation()
                }
            }),
            final(self).spec_next_mod_graph_id() == old(self).spec_next_mod_graph_id(),
            final(self).spec_note_graphs() == old(self).spec_note_graphs(),
            final(self).spec_next_note_graph_id() == old(self).spec_next_note_graph_id(),
            same_song(*old(self), *final(self)),
            old(self).pools_wf() ==> final(self).pools_wf(),
    {
        proof {
            lemma_first_index(old(self).spec_mod_graphs(), mod_graph_is::<D>(id));
        }
        let i = match self.mod_graph_index(id) {
            Some(i) => i,
            None => return false,
        };
        self.mod_graphs[i].set_scope(scope);
        if scope == ModGraphScope::Global {
            self.mod_graphs[i].set_assigned_tracks(Vec::new());
        }
        self.bump_mod_grid();
        proof {
            let gs = self.spec_mod_graphs();
            let hs = old(self).spec_mod_graphs();
            if old(self).pools_wf() {
                assert forall|a: int, b: int| 0 <= a < b < gs.len() implies gs[a].spec_id() != gs[b].spec_id() by {
                    assert(gs[a].spec_id() == hs[a].spec_id());
                    assert(gs[b].spec_id() == hs[b].spec_id());
                }
                assert forall|a: int| 0 <= a < gs.len() implies (#[trigger] gs[a]).spec_id().0 < self.spec_next_mod_graph_id() by {
                    assert(gs[a].spec_id() == hs[a].spec_id());
                }
            }
        }
        true
    }

    /// Replace a Mod Grid graph's track assignments with the requested tracks
    /// that exist, each once, in request order. `false`, and nothing changes,
    /// when no pooled graph has this id.
    pub fn assign_mod_graph(&mut self, id: ModGraphId, tracks: &[TrackId]) -> (r: bool)
        ensures
            final(self).spec_generation() == old(self).spec_generation(),
            ({
                let i = first_index(old(self).spec_mod_graphs(), mod_graph_is::<D>(id));
                let old_g = old(self).spec_mod_graphs()[i];
                let g = final(self).spec_mod_graphs()[i];
                if i == -1 {
                    &&& !r
                    &&& final(self).spec_mod_graphs() == old(self).spec_mod_graphs()
                    &&& final(self).spec_mod_generation() == old(self).spec_mod_generation()
                } else {
                    &&& r
                    &&& final(self).spec_mod_graphs().len() == old(self).spec_mod_graphs().len()
                    &&& forall|k: int| 0 <= k < old(self).spec_mod_graphs().len() && k != i ==> #[trigger] final(self).spec_mod_graphs()[k] == old(self).spec_mod_graphs()[k]
                    &&& g.spec_assigned() == assignment_upto(tracks@, old(self).spec_tracks(), tracks@.len() as int)
                    &&& g.spec_scope() == old_g.spec_scope()
                    &&& g.spec_id() == old_g.spec_id()
                    &&& g.spec_name() == old_g.spec_name()
                    &&& g.node_seq() == old_g.node_seq()
                    &&& g.cable_seq() == old_g.cable_seq()
                    &&& final(self).spec_mod_generation() != old(self).spec_mod_generation()
                }
            }),
            final(self).spec_next_mod_graph_id() == old(self).spec_next_mod_graph_id(),
            final(self).spec_note_graphs() == old(self).spec_note_graphs(),
            final(self).spec_next_note_graph_id() == old(self).spec_next_note_graph_id(),
            same_song(*old(self), *final(self)),
            old(self).pools_wf() ==> final(self).pools_wf(),
    {
        proof {
            lemma_first_index(old(self).spec_mod_graphs(), mod_graph_is::<D>(id));
        }
        let i = match self.mod_graph_index(id) {
            Some(i) => i,
            None => return false,
        };
        let mut assigned: Vec<TrackId> = Vec::new();
        let mut k: usize = 0;
        while k < tracks.len()
            invariant
                k <= tracks@.len(),
                assigned@ == assignment_upto(tracks@, self.spec_tracks(), k as int),
            decreases tracks@.len() - k,
        {
            let t = tracks[k];
            proof {
                lemma_first_index(self.spec_tracks(), track_is(t));
                if has_track(self.spec_tracks(), t) {
                    let w = choose|w: int| 0 <= w < self.spec_tracks().len() && (#[trigger] self.spec_tracks()[w]).id == t;
                    assert(track_is(t)(self.spec_tracks()[w]));
                }
                if first_index(self.spec_tracks(), track_is(t)) >= 0 {
                    let w = first_index(self.spec_tracks(), track_is(t));
                    assert(self.spec_tracks()[w].id == t);
                }
            }
            if self.track_index(t).is_some() && !holds_track(&assigned, t) {
                assigned.push(t);
            }
            k = k + 1;
        }
        self.mod_graphs[i].set_assigned_tracks(assigned);
        self.bump_mod_grid();
        proof {
            let gs = self.spec_mod_graphs();
            let hs = old(self).spec_mod_graphs();
            if old(self).pools_wf() {
                assert forall|a: int, b: int| 0 <= a < b < gs.len() implies gs[a].spec_id() != gs[b].spec_id() by {
                    assert(gs[a].spec_id() == hs[a].spec_id());
                    assert(gs[b].spec_id() == hs[b].spec_id());
                }
                assert forall|a: int| 0 <= a < gs.len() implies (#[trigger] gs[a]).spec_id().0 < self.spec_next_mod_graph_id() by {
                    assert(gs[a].spec_id() == hs[a].spec_id());
                }
            }
        }
        true
    }

    /// How many running instances the Mod Grid graph `id` has: 1 for a
    /// global graph, one per assigned track otherwise, 0 when not pooled.
    pub fn mod_graph_usage(&self, id: ModGraphId) -> (r: usize)
        ensures
            ({
                let i = first_index(self.spec_mod_graphs(), mod_graph_is::<D>(id));
                r == if i == -1 {
                    0
                } else if self.spec_mod_graphs()[i].spec_scope() == ModGraphScope::Global {
                    1
                } else {
                    self.spec_mod_graphs()[i].spec_assigned().len()
                }
            }),
    {
        proof {
            lemma_first_index(self.spec_mod_graphs(), mod_graph_is::<D>(id));
        }
        match self.mod_graph_index(id) {
            Some(i) => {
                let g = &self.mod_graphs[i];
                match g.scope() {
                    ModGraphScope::Global => 1,
                    ModGraphScope::Track => g.assigned_tracks().len(),
                }
            },
            None => 0,
        }
    }

    /// Take a Mod Grid graph out of the pool. `None`, and nothing changes,
    /// when no pooled graph has this id.
    pub fn remove_mod_graph(&mut self, id: ModGraphId) -> (r: Option<ModGraph<D>>)
        ensures
            final(self).spec_generation() == old(self).spec_generation(),
            ({
                let i = first_index(old(self).spec_mod_graphs(), mod_graph_is::<D>(id));
                match r {
                    Some(g) => i >= 0 && g == old(self).spec_mod_graphs()[i] && final(self).spec_mod_graphs()
                        == old(self).spec_mod_graphs().remove(i)
                        && final(self).spec_mod_generation() != old(self).spec_mod_generation(),
                    None => i == -1 && final(self).spec_mod_graphs() == old(self).spec_mod_graphs()
                        && final(self).spec_mod_generation() == old(self).spec_mod_generation(),
                }
            }),
            final(self).spec_next_mod_graph_id() == old(self).spec_next_mod_graph_id(),
            final(self).spec_note_graphs() == old(self).spec_note_graphs(),
            final(self).spec_next_note_graph_id() == old(self).spec_next_note_graph_id(),
            same_song(*old(self), *final(self)),
            old(self).pools_wf() ==> final(self).pools_wf(),
    {
        proof {
            lemma_first_index(old(self).spec_mod_graphs(), mod_graph_is::<D>(id));
        }
        let pos = match self.mod_graph_index(id) {
            Some(p) => p,
            None => return None,
        };
        let removed = self.mod_graphs.remove(pos);
        self.bump_mod_grid();
        proof {
            let gs = old(self).spec_mod_graphs();
            if old(self).pools_wf() {
                assert forall|a: int, b: int| 0 <= a < b < self.spec_mod_graphs().len()
                    implies self.spec_mod_graphs()[a].spec_id() != self.spec_mod_graphs()[b].spec_id() by {
                    let a2 = if a < pos { a } else { a + 1 };
                    let b2 = if b < pos { b } else { b + 1 };
                    assert(self.spec_mod_graphs()[a] == gs[a2]);
                    assert(self.spec_mod_graphs()[b] == gs[b2]);
                }
                assert forall|a: int| 0 <= a < self.spec_mod_graphs().len()
                    implies (#[trigger] self.spec_mod_graphs()[a]).spec_id().0 < self.spec_next_mod_graph_id() by {
                    let a2 = if a < pos { a } else { a + 1 };
                    assert(self.spec_mod_graphs()[a] == gs[a2]);
                }
            }
        }
        Some(removed)
    }

    /// Prepare every pooled Mod Grid graph after a load. Each graph's cable
    /// set is valid by construction (every cable passed validation on the
    /// way in), so nothing needs dropping; the generation is bumped so the
    /// engine builds fresh instances.
    pub fn rebuild_mod_graphs(&mut self)
        ensures
            final(self).spec_generation() == old(self).spec_generation(),
            final(self).spec_mod_graphs() == old(self).spec_mod_graphs(),
            forall|k: int| 0 <= k < final(self).spec_mod_graphs().len() ==> mod_validation(
                (#[trigger] final(self).spec_mod_graphs()[k]).node_seq(),
                final(self).spec_mod_graphs()[k].cable_seq(),
            ) is Ok,
            final(self).spec_mod_generation() != old(self).spec_mod_generation(),
            final(self).spec_next_mod_graph_id() == old(self).spec_next_mod_graph_id(),
            final(self).spec_note_graphs() == old(self).spec_note_graphs(),
            final(self).spec_next_note_graph_id() == old(self).spec_next_note_graph_id(),
            same_song(*old(self), *final(self)),
    {
        let mut i: usize = 0;
        while i < self.mod_graphs.len()
            invariant
                i <= self.spec_mod_graphs().len(),
                forall|k: int| 0 <= k < i ==> mod_validation(
                    (#[trigger] self.spec_mod_graphs()[k]).node_seq(),
                    self.spec_mod_graphs()[k].cable_seq(),
                ) is Ok,
            decreases self.spec_mod_graphs().len() - i,
        {
            let _ = self.mod_graphs[i].validate();
            i = i + 1;
        }
        self.bump_mod_grid();
    }
}

impl<M: Copy, N: Clone, D> Song<M, N, D> {
    /// Copy a pooled Note Grid graph under the next graph id, named
    /// `"<name> copy"`, with its evaluation order recomputed; returns a copy
    /// of the new graph. `None`, and nothing changes, when no pooled graph
    /// has the id `src`.
    pub fn duplicate_note_graph(&mut self, src: NoteGraphId) -> (r: Option<NoteGraph<N>>)
        ensures
            final(self).spec_generation() == old(self).spec_generation(),
            ({
                let i = first_index(old(self).spec_note_graphs(), note_graph_is::<N>(src));
                let from = old(self).spec_note_graphs()[i];
                let g = final(self).spec_note_graphs().last();
                match r {
                    None => i == -1 && final(self).spec_note_graphs() == old(self).spec_note_graphs()
                        && final(self).spec_next_note_graph_id() == old(self).spec_next_note_graph_id(),
                    Some(copy) => {
                        &&& i >= 0
                        &&& final(self).spec_note_graphs().len() == old(self).spec_note_graphs().len() + 1
                        &&& final(self).spec_note_graphs().drop_last() == old(self).spec_note_graphs()
                        &&& g.spec_id().0 == old(self).spec_next_note_graph_id()
                        &&& g.spec_name() == from.spec_name() + " copy"@
                        &&& same_note_shape(g.node_seq(), from.node_seq())
                        &&& g.conn_seq() == from.conn_seq()
                        &&& (note_validation(g.node_seq(), g.conn_seq()) is Ok ==> g.is_settled())
                        &&& final(self).spec_next_note_graph_id() == (if old(self).spec_next_note_graph_id() == u32::MAX {
                            u32::MAX
                        } else {
                            (old(self).spec_next_note_graph_id() + 1) as u32
                        })
                        &&& copy.spec_id() == g.spec_id()
                        &&& copy.spec_name() == g.spec_name()
                        &&& same_note_shape(copy.node_seq(), g.node_seq())
                        &&& copy.conn_seq() == g.conn_seq()
                        &&& copy.order_seq() == g.order_seq()
                        &&& copy.spine_seq() == g.spine_seq()
                    },
                }
            }),
            final(self).spec_mod_graphs() == old(self).spec_mod_graphs(),
            final(self).spec_next_mod_graph_id() == old(self).spec_next_mod_graph_id(),
            final(self).spec_mod_generation() == old(self).spec_mod_generation(),
            same_song(*old(self), *final(self)),
            old(self).pools_wf() && old(self).spec_next_note_graph_id() < u32::MAX ==> final(self).pools_wf(),
    {
        proof {
            reveal_strlit(" copy");
            lemma_first_index(old(self).spec_note_graphs(), note_graph_is::<N>(src));
        }
        let pos = match self.note_graph_index(src) {
            Some(p) => p,
            None => return None,
        };
        let id = NoteGraphId(self.next_note_graph_id);
        self.next_note_graph_id = self.next_note_graph_id.saturating_add(1);
        let name = self.note_graphs[pos].name().clone().concat(" copy");
        let mut graph = self.note_graphs[pos].duplicate(id, name);
        let _ = graph.rebuild_derived();
        let copy = graph.duplicate(id, graph.name().clone());
        self.note_graphs.push(graph);
        proof {
            assert(self.spec_note_graphs().drop_last() =~= old(self).spec_note_graphs());
        }
        Some(copy)
    }
}

impl<M: Copy, N, D: Clone> Song<M, N, D> {
    /// Copy a pooled Mod Grid graph under the next graph id, named
    /// `"<name> copy"`, and return a copy of the new graph. `None`, and
    /// nothing changes, when no pooled graph has the id `src`.
    pub fn duplicate_mod_graph(&mut self, src: ModGraphId) -> (r: Option<ModGraph<D>>)
        ensures
            final(self).spec_generation() == old(self).spec_generation(),
            ({
                let i = first_index(old(self).spec_mod_graphs(), mod_graph_is::<D>(src));
                let from = old(self).spec_mod_graphs()[i];
                let g = final(self).spec_mod_graphs().last();
                match r {
                    None => i == -1 && final(self).spec_mod_graphs() == old(self).spec_mod_graphs()
                        && final(self).spec_next_mod_graph_id() == old(self).spec_next_mod_graph_id()
                        && final(self).spec_mod_generation() == old(self).spec_mod_generation(),
                    Some(copy) => {
                        &&& i >= 0
                        &&& final(self).spec_mod_graphs().len() == old(self).spec_mod_graphs().len() + 1
                        &&& final(self).spec_mod_graphs().drop_last() == old(self).spec_mod_graphs()
                        &&& g.spec_id().0 == old(self).spec_next_mod_graph_id()
                        &&& g.spec_name() == from.spec_name() + " copy"@
                        &&& g.spec_scope() == from.spec_scope()
                        &&& g.spec_assigned() == from.spec_assigned()
                        &&& same_mod_shape(g.node_seq(), from.node_seq())
                        &&& g.cable_seq() == from.cable_seq()
                        &&& final(self).spec_next_mod_graph_id() == (if old(self).spec_next_mod_graph_id() == u32::MAX {
                            u32::MAX
                        } else {
                            (old(self).spec_next_mod_graph_id() + 1) as u32
                        })
                        &&& final(self).spec_mod_generation() != old(self).spec_mod_generation()
                        &&& copy.spec_id() == g.spec_id()
                        &&& copy.spec_name() == g.spec_name()
                        &&& copy.spec_scope() == g.spec_scope()
                        &&& copy.spec_assigned() == g.spec_assigned()
                        &&& same_mod_shape(copy.node_seq(), g.node_seq())
                        &&& copy.cable_seq() == g.cable_seq()
                    },
                }
            }),
            final(self).spec_note_graphs() == old(self).spec_note_graphs(),
            final(self).spec_next_note_graph_id() == old(self).spec_next_note_graph_id(),
            same_song(*old(self), *final(self)),
            old(self).pools_wf() && old(self).spec_next_mod_graph_id() < u32::MAX ==> final(self).pools_wf(),
    {
        proof {
            reveal_strlit(" copy");
            lemma_first_index(old(self).spec_mod_graphs(), mod_graph_is::<D>(src));
        }
        let pos = match self.mod_graph_index(src) {
            Some(p) => p,
            None => return None,
        };
        let id = ModGraphId(self.next_mod_graph_id);
        self.next_mod_graph_id = self.next_mod_graph_id.saturating_add(1);
        let name = self.mod_graphs[pos].name().clone().concat(" copy");
        let graph = self.mod_graphs[pos].duplicate(id, name);
        let copy = graph.duplicate(id, graph.name().clone());
        self.mod_graphs.push(graph);
        self.bump_mod_grid();
        proof {
            assert(self.spec_mod_graphs().drop_last() =~= old(self).spec_mod_graphs());
        }
        Some(copy)
    }
}

impl<M: Copy, N: Clone, D: Clone> Clone for Song<M, N, D> {
    /// A copy of the song: the same patterns, tracks, arrangement, time
    /// signatures and settings, and graph pools whose graphs keep their ids,
    /// names, structure and derived state, with node configurations cloned.
    fn clone(&self) -> (r: Self)
        ensures
            r.spec_patterns().len() == self.spec_patterns().len(),
            forall|k: int| 0 <= k < self.spec_patterns().len() ==> same_pattern(#[trigger] r.spec_patterns()[k], self.spec_patterns()[k]),
            r.spec_next_pattern_id() == self.spec_next_pattern_id(),
            r.spec_tracks() == self.spec_tracks(),
            r.spec_next_track_id() == self.spec_next_track_id(),
            r.spec_arrangement() == self.spec_arrangement(),
            r.spec_signatures() == self.spec_signatures(),
            r.spec_generation() == self.spec_generation(),
            r.spec_loop() == self.spec_loop(),
            r.spec_name() == self.spec_name(),
            r.spec_author() == self.spec_author(),
            r.spec_description() == self.spec_description(),
            r.spec_default_signature() == self.spec_default_signature(),
            r.spec_row_resolution() == self.spec_row_resolution(),
            r.spec_default_mix() == self.spec_default_mix(),
            r.spec_note_graphs().len() == self.spec_note_graphs().len(),
            forall|k: int| 0 <= k < self.spec_note_graphs().len() ==> {
                let g = #[trigger] r.spec_note_graphs()[k];
                let h = self.spec_note_graphs()[k];
                &&& g.spec_id() == h.spec_id()
                &&& g.spec_name() == h.spec_name()
                &&& same_note_shape(g.node_seq(), h.node_seq())
                &&& g.conn_seq() == h.conn_seq()
                &&& g.order_seq() == h.order_seq()
                &&& g.spine_seq() == h.spine_seq()
            },
            r.spec_next_note_graph_id() == self.spec_next_note_graph_id(),
            r.spec_mod_graphs().len() == self.spec_mod_graphs().len(),
            forall|k: int| 0 <= k < self.spec_mod_graphs().len() ==> {
                let g = #[trigger] r.spec_mod_graphs()[k];
                let h = self.spec_mod_graphs()[k];
                &&& g.spec_id() == h.spec_id()
                &&& g.spec_name() == h.spec_name()
                &&& g.spec_scope() == h.spec_scope()
                &&& g.spec_assigned() == h.spec_assigned()
                &&& same_mod_shape(g.node_seq(), h.node_seq())
                &&& g.cable_seq() == h.cable_seq()
            },
            r.spec_next_mod_graph_id() == self.spec_next_mod_graph_id(),
            r.spec_mod_generation() == self.spec_mod_generation(),
            self.wf() ==> r.wf(),
            self.pools_wf() ==> r.pools_wf(),
    {
        let mut patterns: Vec<Pattern> = Vec::new();
        let mut i: usize = 0;
        while i < self.patterns.len()
            invariant
                i <= self.patterns@.len(),
                patterns@.len() == i,
                forall|k: int| 0 <= k < i ==> same_pattern(#[trigger] patterns@[k], self.patterns@[k]),
            decreases self.patterns@.len() - i,
        {
            patterns.push(self.patterns[i].clone());
            i = i + 1;
        }
        let mut tracks: Vec<SequencerTrack> = Vec::new();
        let mut i: usize = 0;
        while i < self.tracks.len()
            invariant
                i <= self.tracks@.len(),
                tracks@ == self.tracks@.subrange(0, i as int),
            decreases self.tracks@.len() - i,
        {
            tracks.push(self.tracks[i].clone());
            proof {
                assert(tracks@ =~= self.tracks@.subrange(0, i + 1));
            }
            i = i + 1;
        }
        let mut arrangement: Vec<PatternPlacement<M>> = Vec::new();
        let mut i: usize = 0;
        while i < self.arrangement.len()
            invariant
                i <= self.arrangement@.len(),
                arrangement@ == self.arrangement@.subrange(0, i as int),
            decreases self.arrangement@.len() - i,
        {
            arrangement.push(self.arrangement[i]);
            proof {
                assert(arrangement@ =~= self.arrangement@.subrange(0, i + 1));
            }
            i = i + 1;
        }
        let mut changes: Vec<TimeSignatureChange> = Vec::new();
        let mut i: usize = 0;
        while i < self.time_signature_changes.len()
            invariant
                i <= self.time_signature_changes@.len(),
                changes@ == self.time_signature_changes@.subrange(0, i as int),
            decreases self.time_signature_changes@.len() - i,
        {
            changes.push(self.time_signature_changes[i]);
            proof {
                assert(changes@ =~= self.time_signature_changes@.subrange(0, i + 1));
            }
            i = i + 1;
        }
        let mut note_graphs: Vec<NoteGraph<N>> = Vec::new();
        let mut i: usize = 0;
        while i < self.note_graphs.len()
            invariant
                i <= self.note_graphs@.len(),
                note_graphs@.len() == i,
                forall|k: int| 0 <= k < i ==> {
                    let g = #[trigger] note_graphs@[k];
                    let h = self.note_graphs@[k];
                    &&& g.spec_id() == h.spec_id()
                    &&& g.spec_name() == h.spec_name()
                    &&& same_note_shape(g.node_seq(), h.node_seq())
                    &&& g.conn_seq() == h.conn_seq()
                    &&& g.order_seq() == h.order_seq()
                    &&& g.spine_seq() == h.spine_seq()
                },
            decreases self.note_graphs@.len() - i,
        {
            let g = &self.note_graphs[i];
            note_graphs.push(g.duplicate(g.id(), g.name().clone()));
            i = i + 1;
        }
        let mut mod_graphs: Vec<ModGraph<D>> = Vec::new();
        let mut i: usize = 0;
        while i < self.mod_graphs.len()
            invariant
                i <= self.mod_graphs@.len(),
                mod_graphs@.len() == i,
                forall|k: int| 0 <= k < i ==> {
                    let g = #[trigger] mod_graphs@[k];
                    let h = self.mod_graphs@[k];
                    &&& g.spec_id() == h.spec_id()
                    &&& g.spec_name() == h.spec_name()
                    &&& g.spec_scope() == h.spec_scope()
                    &&& g.spec_assigned() == h.spec_assigned()
                    &&& same_mod_shape(g.node_seq(), h.node_seq())
                    &&& g.cable_seq() == h.cable_seq()
                },
            decreases self.mod_graphs@.len() - i,
        {
            let g = &self.mod_graphs[i];
            mod_graphs.push(g.duplicate(g.id(), g.name().clone()));
            i = i + 1;
        }
        proof {
            assert(tracks@ =~= self.tracks@);
            assert(arrangement@ =~= self.arrangement@);
            assert(changes@ =~= self.time_signature_changes@);
        }
        let r = Song {
            name: self.name.clone(),
            author: self.author.clone(),
            description: self.description.clone(),
            patterns,
            next_pattern_id: self.next_pattern_id,
            tracks,
            next_track_id: self.next_track_id,
            arrangement,
            time_signature_changes: changes,
            default_time_signature: self.default_time_signature,
            row_resolution: self.row_resolution,
            default_mix: self.default_mix,
            transport_loop: self.transport_loop,
            structure_generation: self.structure_generation,
            note_graphs,
            next_note_graph_id: self.next_note_graph_id,
            mod_graphs,
            next_mod_graph_id: self.next_mod_graph_id,
            mod_grid_generation: self.mod_grid_generation,
        };
        proof {
            if self.wf() {
                let ps = r.spec_patterns();
                let qs = self.spec_patterns();
                assert forall|a: int, b: int| 0 <= a < b < ps.len() implies ps[a].spec_id() != ps[b].spec_id() by {
                    assert(same_pattern(ps[a], qs[a]));
                    assert(same_pattern(ps[b], qs[b]));
                }
                assert forall|a: int| 0 <= a < ps.len() implies (#[trigger] ps[a]).spec_id().0 < r.spec_next_pattern_id() by {
                    assert(same_pattern(ps[a], qs[a]));
                }
            }
            if self.pools_wf() {
                let gs = r.spec_note_graphs();
                let hs = self.spec_note_graphs();
                assert forall|a: int, b: int| 0 <= a < b < gs.len() implies gs[a].spec_id() != gs[b].spec_id() by {
                    assert(gs[a].spec_id() == hs[a].spec_id());
                    assert(gs[b].spec_id() == hs[b].spec_id());
                }
                assert forall|a: int| 0 <= a < gs.len() implies (#[trigger] gs[a]).spec_id().0 < r.spec_next_note_graph_id() by {
                    assert(gs[a].spec_id() == hs[a].spec_id());
                }
                let ms = r.spec_mod_graphs();
                let ns = self.spec_mod_graphs();
                assert forall|a: int, b: int| 0 <= a < b < ms.len() implies ms[a].spec_id() != ms[b].spec_id() by {
                    assert(ms[a].spec_id() == ns[a].spec_id());
                    assert(ms[b].spec_id() == ns[b].spec_id());
                }
                assert forall|a: int| 0 <= a < ms.len() implies (#[trigger] ms[a]).spec_id().0 < r.spec_next_mod_graph_id() by {
                    assert(ms[a].spec_id() == ns[a].spec_id());
                }
            }
        }
        r
    }
}

/// The node made of stage `k` of a rack: id `k + 1`, the stage's kind and
/// configuration.
pub open spec fn chain_node<N>(stages: Seq<(NoteModuleKind, N)>, k: int) -> NoteNode<N> {
    NoteNode { id: NoteModuleId((k + 1) as u32), kind: stages[k].0, config: stages[k].1 }
}

/// The stream link from the node of stage `k - 1` to the node of stage `k`.
pub open spec fn chain_link(k: int) -> NoteConnection {
    NoteConnection {
        from: NoteModuleId(k as u32),
        to: NoteModuleId((k + 1) as u32),
        port: NotePortType::NoteStream,
        to_input: 0,
    }
}

/// The nodes and connections made of the first `k` stages of a rack, each
/// added as a node: every node after the first is linked from the one
/// before it when the graph accepts the link.
pub open spec fn chain_upto<N>(stages: Seq<(NoteModuleKind, N)>, k: int) -> (Seq<NoteNode<N>>, Seq<NoteConnection>)
    decreases k,
{
    if k <= 0 {
        (Seq::empty(), Seq::empty())
    } else {
        let prev = chain_upto(stages, k - 1);
        let nodes = with_note_node(prev.0, chain_node(stages, k - 1));
        if k >= 2 && note_validation(nodes, prev.1.push(chain_link(k - 1))) is Ok {
            (nodes, prev.1.push(chain_link(k - 1)))
        } else {
            (nodes, prev.1)
        }
    }
}

/// Whether the graph made of the first `k` stages accepts stage `k` as a
/// node: the node cap is not reached and the graph stays valid.
pub open spec fn chain_accepts<N>(stages: Seq<(NoteModuleKind, N)>, k: int) -> bool {
    let prev = chain_upto(stages, k);
    let node = chain_node(stages, k);
    &&& !(!has_note_node(prev.0, node.id) && prev.0.len() >= MAX_NOTE_GRID_NODES)
    &&& note_validation(with_note_node(prev.0, node), prev.1) is Ok
}

/// How many of the first `n` stages become nodes: the stages up to the first
/// one the graph refuses.
pub open spec fn chain_len<N>(stages: Seq<(NoteModuleKind, N)>, n: int) -> int
    decreases n,
{
    if n <= 0 {
        0
    } else {
        let m = chain_len(stages, n - 1);
        if m == n - 1 && chain_accepts(stages, n - 1) {
            n
        } else {
            m
        }
    }
}

proof fn lemma_chain_len_full<N>(stages: Seq<(NoteModuleKind, N)>, k: int)
    requires
        0 <= k,
        forall|j: int| 0 <= j < k ==> chain_accepts(stages, j),
    ensures
        chain_len(stages, k) == k,
    decreases k,
{
    if k > 0 {
        lemma_chain_len_full(stages, k - 1);
    }
}

proof fn lemma_chain_len_stuck<N>(stages: Seq<(NoteModuleKind, N)>, k: int, n: int)
    requires
        0 <= k < n,
        chain_len(stages, k) == k,
        !chain_accepts(stages, k),
    ensures
        chain_len(stages, n) == k,
    decreases n,
{
    if n > k + 1 {
        lemma_chain_len_stuck(stages, k, n - 1);
    }
}

/// Add stage `k` of a rack to the graph built from the stages before it, as
/// node `k + 1` linked from node `k`. `false`, and the graph is unchanged,
/// when the graph refuses the node.
fn add_chain_stage<N>(graph: &mut NoteGraph<N>, stages: Ghost<Seq<(NoteModuleKind, N)>>, k: usize, kind: NoteModuleKind, config: N) -> (r: bool)
    requires
        k < stages@.len(),
        k < usize::MAX,
        stages@[k as int] == (kind, config),
        old(graph).node_seq() == chain_upto(stages@, k as int).0,
        old(graph).conn_seq() == chain_upto(stages@, k as int).1,
    ensures
        r == chain_accepts(stages@, k as int),
        r ==> final(graph).node_seq() == chain_upto(stages@, k + 1).0 && final(graph).conn_seq() == chain_upto(stages@, k + 1).1,
        !r ==> final(graph).node_seq() == old(graph).node_seq() && final(graph).conn_seq() == old(graph).conn_seq(),
        final(graph).spec_id() == old(graph).spec_id(),
        final(graph).spec_name() == old(graph).spec_name(),
{
    let nid = NoteModuleId::new(#[verifier::truncate] ((k + 1) as u32));
    let inserted = graph.try_insert_node(nid, kind, config);
    if inserted.is_err() {
        return false;
    }
    if k > 0 {
        let _ = graph.try_connect(NoteConnection::stream(NoteModuleId::new(#[verifier::truncate] (k as u32)), nid));
    }
    true
}

/// The name of the graph a rack of pattern `name` becomes.
pub open spec fn rack_graph_name(name: Seq<char>) -> Seq<char> {
    if name.len() == 0 {
        "Rack"@
    } else {
        name + " FX"@
    }
}

impl<M: Copy, N, D> Song<M, N, D> {
    /// Turn a pattern's processor rack, given as its stages in chain order,
    /// into a new pooled Note Grid graph under the next graph id: one node
    /// per stage (ids 1, 2, … in order, up to the first stage the graph
    /// refuses), each linked from the one before by a stream connection,
    /// named `"<pattern name> FX"` (`"Rack"` for an unnamed pattern). The
    /// pattern is bound to the new graph. `None`, and nothing changes, when
    /// the pattern is missing, already bound to a graph, or the rack is
    /// empty.
    pub fn convert_rack_to_graph(&mut self, pattern_id: PatternId, stages: Vec<(NoteModuleKind, N)>) -> (r: Option<NoteGraphId>)
        ensures
            ({
                let i = first_index(old(self).spec_patterns(), pattern_is::<M>(pattern_id));
                let p = old(self).spec_patterns()[i];
                let g = final(self).spec_note_graphs().last();
                let m = chain_len(stages@, stages@.len() as int);
                if i == -1 || p.spec_note_graph() is Some || stages@.len() == 0 {
                    &&& r is None
                    &&& final(self).spec_patterns() == old(self).spec_patterns()
                    &&& final(self).spec_note_graphs() == old(self).spec_note_graphs()
                    &&& final(self).spec_next_note_graph_id() == old(self).spec_next_note_graph_id()
                } else {
                    &&& r == Some(NoteGraphId(old(self).spec_next_note_graph_id()))
                    &&& final(self).spec_next_note_graph_id() == (if old(self).spec_next_note_graph_id() == u32::MAX {
                        u32::MAX
                    } else {
                        (old(self).spec_next_note_graph_id() + 1) as u32
                    })
                    &&& final(self).spec_note_graphs().len() == old(self).spec_note_graphs().len() + 1
                    &&& final(self).spec_note_graphs().drop_last() == old(self).spec_note_graphs()
                    &&& g.spec_id().0 == old(self).spec_next_note_graph_id()
                    &&& g.spec_name() == rack_graph_name(p.spec_name())
                    &&& g.node_seq() == chain_upto(stages@, m).0
                    &&& g.conn_seq() == chain_upto(stages@, m).1
                    &&& (note_validation(g.node_seq(), g.conn_seq()) is Ok ==> g.is_settled())
                    &&& final(self).spec_patterns().len() == old(self).spec_patterns().len()
                    &&& forall|k: int| 0 <= k < old(self).spec_patterns().len() && k != i ==> #[trigger] final(self).spec_patterns()[k] == old(self).spec_patterns()[k]
                    &&& same_pattern_but_binding(final(self).spec_patterns()[i], p)
                    &&& final(self).spec_patterns()[i].spec_note_graph() == r
                }
            }),
            final(self).spec_name() == old(self).spec_name(),
            final(self).spec_author() == old(self).spec_author(),
            final(self).spec_description() == old(self).spec_description(),
            final(self).spec_default_signature() == old(self).spec_default_signature(),
            final(self).spec_row_resolution() == old(self).spec_row_resolution(),
            final(self).spec_default_mix() == old(self).spec_default_mix(),
            final(self).spec_loop() == old(self).spec_loop(),
            final(self).spec_next_pattern_id() == old(self).spec_next_pattern_id(),
            final(self).spec_tracks() == old(self).spec_tracks(),
            final(self).spec_next_track_id() == old(self).spec_next_track_id(),
            final(self).spec_arrangement() == old(self).spec_arrangement(),
            final(self).spec_signatures() == old(self).spec_signatures(),
            final(self).spec_generation() == old(self).spec_generation(),
            final(self).spec_mod_graphs() == old(self).spec_mod_graphs(),
            final(self).spec_next_mod_graph_id() == old(self).spec_next_mod_graph_id(),
            final(self).spec_mod_generation() == old(self).spec_mod_generation(),
            old(self).wf() ==> final(self).wf(),
            old(self).pools_wf() && old(self).spec_next_note_graph_id() < u32::MAX ==> final(self).pools_wf(),
    {
        proof {
            reveal_strlit("Rack");
            reveal_strlit(" FX");
            lemma_first_index(old(self).spec_patterns(), pattern_is::<M>(pattern_id));
        }
        let pos = match self.pattern_index(pattern_id) {
            Some(p) => p,
            None => return None,
        };
        if self.patterns[pos].note_graph().is_some() || stages.len() == 0 {
            return None;
        }
        let name = if self.patterns[pos].name().as_str().is_empty() {
            String::from_str("Rack")
        } else {
            self.patterns[pos].name().clone().concat(" FX")
        };
        let id = NoteGraphId(self.next_note_graph_id);
        let ghost name_view = name@;
        let mut graph: NoteGraph<N> = NoteGraph::new(id, name);
        let ghost all = stages@;
        let n = stages.len();
        let mut rest = stages;
        let mut k: usize = 0;
        proof {
            assert(rest@ =~= all.subrange(0, all.len() as int));
        }
        while k < n
            invariant_except_break
                k <= n,
                n == all.len(),
                rest@ == all.subrange(k as int, n as int),
                graph.spec_id() == id,
                graph.spec_name() == name_view,
                graph.node_seq() == chain_upto(all, k as int).0,
                graph.conn_seq() == chain_upto(all, k as int).1,
                forall|j: int| 0 <= j < k ==> chain_accepts(all, j),
                k == n ==> chain_len(all, n as int) == n,
            ensures
                graph.spec_id() == id,
                graph.spec_name() == name_view,
                graph.node_seq() == chain_upto(all, chain_len(all, n as int)).0,
                graph.conn_seq() == chain_upto(all, chain_len(all, n as int)).1,
            decreases n - k,
        {
            let (kind, config) = rest.remove(0);
            if !add_chain_stage(&mut graph, Ghost(all), k, kind, config) {
                proof {
                    lemma_chain_len_full(all, k as int);
                    lemma_chain_len_stuck(all, k as int, n as int);
                }
                break;
            }
            proof {
                assert(rest@ =~= all.subrange(k + 1, n as int));
            }
            k = k + 1;
            proof {
                if k == n {
                    lemma_chain_len_full(all, k as int);
                }
            }
        }
        let _ = graph.rebuild_derived();
        self.next_note_graph_id = self.next_note_graph_id.saturating_add(1);
        self.note_graphs.push(graph);
        self.patterns[pos].set_note_graph(Some(id));
        proof {
            assert(self.spec_note_graphs().drop_last() =~= old(self).spec_note_graphs());
            if old(self).wf() {
                let ps = self.spec_patterns();
                let qs = old(self).spec_patterns();
                assert forall|a: int, b: int| 0 <= a < b < ps.len() implies ps[a].spec_id() != ps[b].spec_id() by {
                    assert(ps[a].spec_id() == qs[a].spec_id());
                    assert(ps[b].spec_id() == qs[b].spec_id());
                }
                assert forall|a: int| 0 <= a < ps.len() implies (#[trigger] ps[a]).spec_id().0 < self.spec_next_pattern_id() by {
                    assert(ps[a].spec_id() == qs[a].spec_id());
                }
            }
            if old(self).pools_wf() && old(self).spec_next_note_graph_id() < u32::MAX {
                let gs = self.spec_note_graphs();
                assert forall|a: int, b: int| 0 <= a < b < gs.len() implies gs[a].spec_id() != gs[b].spec_id() by {
                    if b < gs.len() - 1 {
                        assert(gs[a] == old(self).spec_note_graphs()[a]);
                        assert(gs[b] == old(self).spec_note_graphs()[b]);
                    } else {
                        assert(gs[a] == old(self).spec_note_graphs()[a]);
                    }
                }
                assert forall|a: int| 0 <= a < gs.len() implies (#[trigger] gs[a]).spec_id().0 < self.spec_next_note_graph_id() by {
                    if a < gs.len() - 1 {
                        assert(gs[a] == old(self).spec_note_graphs()[a]);
                    }
                }
            }
        }
        Some(id)
    }
}

/// Dropping patterns keeps their ids distinct and below the next id.
proof fn lemma_patterns_filter_wf(ps: Seq<Pattern>, next: u32, keep: spec_fn(Pattern) -> bool)
    requires
        patterns_wf(ps, next),
    ensures
        patterns_wf(ps.filter(keep), next),
        forall|i: int| 0 <= i < ps.filter(keep).len() ==> exists|j: int| 0 <= j < ps.len() && #[trigger] ps.filter(keep)[i] == ps[j],
    decreases ps.len(),
{
    reveal(Seq::filter);
    if ps.len() > 0 {
        let d = ps.drop_last();
        assert(patterns_wf(d, next)) by {
            assert forall|i: int| 0 <= i < d.len() implies (#[trigger] d[i]).spec_id().0 < next by {
                assert(d[i] == ps[i]);
            }
        }
        lemma_patterns_filter_wf(d, next, keep);
        let g = d.filter(keep);
        let f = ps.filter(keep);
        assert forall|i: int| 0 <= i < f.len() implies exists|j: int| 0 <= j < ps.len() && #[trigger] f[i] == ps[j] by {
            if i < g.len() {
                let j = choose|j: int| 0 <= j < d.len() && #[trigger] g[i] == d[j];
                assert(f[i] == ps[j]);
            } else {
                assert(f[i] == ps[ps.len() - 1]);
            }
        }
        if keep(ps.last()) {
            assert forall|i: int, j: int| 0 <= i < j < f.len() implies f[i].spec_id() != f[j].spec_id() by {
                if j == f.len() - 1 {
                    let k = choose|k: int| 0 <= k < d.len() && #[trigger] g[i] == d[k];
                    assert(d[k] == ps[k]);
                } else {
                    assert(f[i] == g[i] && f[j] == g[j]);
                }
            }
            assert forall|i: int| 0 <= i < f.len() implies (#[trigger] f[i]).spec_id().0 < next by {
                if i < g.len() {
                    assert(f[i] == g[i]);
                }
            }
        }
    }
}

/// Dropping tracks keeps their ids distinct and below the next id.
proof fn lemma_tracks_filter_wf(ts: Seq<SequencerTrack>, next: u16, keep: spec_fn(SequencerTrack) -> bool)
    requires
        tracks_wf(ts, next),
    ensures
        tracks_wf(ts.filter(keep), next),
        forall|i: int| 0 <= i < ts.filter(keep).len() ==> exists|j: int| 0 <= j < ts.len() && #[trigger] ts.filter(keep)[i] == ts[j],
    decreases ts.len(),
{
    reveal(Seq::filter);
    if ts.len() > 0 {
        let d = ts.drop_last();
        assert(tracks_wf(d, next)) by {
            assert forall|i: int| 0 <= i < d.len() implies (#[trigger] d[i]).id.0 < next by {
                assert(d[i] == ts[i]);
            }
        }
        lemma_tracks_filter_wf(d, next, keep);
        let g = d.filter(keep);
        let f = ts.filter(keep);
        assert forall|i: int| 0 <= i < f.len() implies exists|j: int| 0 <= j < ts.len() && #[trigger] f[i] == ts[j] by {
            if i < g.len() {
                let j = choose|j: int| 0 <= j < d.len() && #[trigger] g[i] == d[j];
                assert(f[i] == ts[j]);
            } else {
                assert(f[i] == ts[ts.len() - 1]);
            }
        }
        if keep(ts.last()) {
            assert forall|i: int, j: int| 0 <= i < j < f.len() implies f[i].id != f[j].id by {
                if j == f.len() - 1 {
                    let k = choose|k: int| 0 <= k < d.len() && #[trigger] g[i] == d[k];
                    assert(d[k] == ts[k]);
                } else {
                    assert(f[i] == g[i] && f[j] == g[j]);
                }
            }
            assert forall|i: int| 0 <= i < f.len() implies (#[trigger] f[i]).id.0 < next by {
                if i < g.len() {
                    assert(f[i] == g[i]);
                }
            }
        }
    }
}

/// The song length is the latest end: no placement of a known pattern ends
/// after it, and it is the end of one of them (or 0 when there is none).
pub proof fn lemma_length_is_latest_end<M>(ps: Seq<Pattern>, a: Seq<PatternPlacement<M>>, n: int)
    requires
        0 <= n <= a.len(),
    ensures
        forall|k: int| 0 <= k < n ==> (placement_end(ps, #[trigger] a[k]) matches Some(e) ==> e <= length_upto(ps, a, n)),
        length_upto(ps, a, n) == 0 || exists|k: int| 0 <= k < n && placement_end(ps, #[trigger] a[k]) == Some(length_upto(ps, a, n)),
        length_upto(ps, a, n) >= 0,
    decreases n,
{
    if n > 0 {
        lemma_length_is_latest_end(ps, a, n - 1);
        let prev = length_upto(ps, a, n - 1);
        if let Some(e) = placement_end(ps, a[n - 1]) {
            if e > prev {
                assert(placement_end(ps, a[n - 1]) == Some(length_upto(ps, a, n)));
            } else if prev != 0 {
                let k = choose|k: int| 0 <= k < n - 1 && placement_end(ps, #[trigger] a[k]) == Some(prev);
                assert(placement_end(ps, a[k]) == Some(length_upto(ps, a, n)));
            }
        } else if prev != 0 {
            let k = choose|k: int| 0 <= k < n - 1 && placement_end(ps, #[trigger] a[k]) == Some(prev);
            assert(placement_end(ps, a[k]) == Some(length_upto(ps, a, n)));
        }
    }
}

} // verus!
