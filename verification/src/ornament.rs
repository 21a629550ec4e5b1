//! Per-note ornaments: the timed-repeat figure a note can carry (grace notes,
//! rolls, trills written as a count and a spacing).
//!
//! A figure of `n` hits spans `(n − 1)·spacing` ticks. A curve (even,
//! accelerating, decelerating) proposes a raw onset for each hit; those raw
//! onsets are real-valued and rounded by the caller. This module forces them
//! strictly increasing with the endpoints pinned, so no two hits of one
//! ornament ever share a tick, and decides which hit (if any) lands on a given
//! tick, whether it is the main hit, and how long the gap to the next hit is.
use vstd::prelude::*;

use crate::note::{note_end, Note, OrnamentPlacement};
use crate::note_processor::MAX_ORNAMENT_HITS;
use crate::time::{Duration, PatternTick};

verus! {

/// The timing shape of a per-note ornament.
#[derive(Debug, Clone, Copy, PartialEq, Eq)]
pub struct OrnamentFigure {
    /// Requested number of hits (the main hit included).
    pub count: u8,
    /// Ticks between adjacent hits (0 is treated as 1).
    pub spacing: Duration,
    /// Whether the figure leads into the note or starts on it.
    pub placement: OrnamentPlacement,
}

/// Effective hit count: the requested count clamped to [`MAX_ORNAMENT_HITS`].
pub open spec fn figure_hits(f: OrnamentFigure) -> int {
    if f.count < 64 {
        f.count as int
    } else {
        64
    }
}

/// Effective spacing: at least one tick.
pub open spec fn figure_base(f: OrnamentFigure) -> int {
    if f.spacing.0 < 1 {
        1
    } else {
        f.spacing.0 as int
    }
}

/// Ticks from the first hit to the last.
pub open spec fn figure_span(f: OrnamentFigure) -> int {
    (figure_hits(f) - 1) * figure_base(f)
}

/// Clamp `x` into `[lo, hi]`.
pub open spec fn clamp_int(x: int, lo: int, hi: int) -> int {
    if x < lo {
        lo
    } else if x > hi {
        hi
    } else {
        x
    }
}

/// The first `k` onsets of an `n`-hit figure spanning `total` ticks: each raw
/// onset clamped to at least one tick past its predecessor (0 for the first)
/// and to leave one tick for every remaining hit.
pub open spec fn onsets_upto(raw: Seq<i64>, n: int, total: int, k: int) -> Seq<int>
    decreases k,
{
    if k <= 0 {
        Seq::empty()
    } else {
        let prev = onsets_upto(raw, n, total, k - 1);
        let lower = if k - 1 == 0 { 0 } else { prev.last() + 1 };
        let upper = total - (n - 1 - (k - 1));
        prev.push(clamp_int(raw[k - 1] as int, lower, upper))
    }
}

/// The onsets are strictly increasing, the `k`-th lies in
/// `[k, total − (n − 1 − k)]`, and the endpoints are pinned to `0` and
/// `total` whenever the raw curve starts at or below `0` and ends at or above
/// `total`.
pub proof fn lemma_onsets_strictly_increasing(raw: Seq<i64>, n: int, total: int, k: int)
    requires
        0 <= k <= n,
        n <= raw.len(),
        total >= n - 1,
    ensures
        onsets_upto(raw, n, total, k).len() == k,
        forall|i: int, j: int| 0 <= i < j < k ==> onsets_upto(raw, n, total, k)[i] < onsets_upto(raw, n, total, k)[j],
        forall|i: int| 0 <= i < k ==> i <= #[trigger] onsets_upto(raw, n, total, k)[i] <= total - (n - 1 - i),
        k >= 1 && raw[0] <= 0 ==> onsets_upto(raw, n, total, k)[0] == 0,
        k == n && n >= 1 && raw[n - 1] >= total ==> onsets_upto(raw, n, total, k)[n - 1] == total,
    decreases k,
{
    if k > 0 {
        lemma_onsets_strictly_increasing(raw, n, total, k - 1);
        let prev = onsets_upto(raw, n, total, k - 1);
        let cur = onsets_upto(raw, n, total, k);
        assert(cur == prev.push(cur[k - 1]));
        assert forall|i: int| 0 <= i < k - 1 implies #[trigger] cur[i] == prev[i] by {}
        if k >= 2 {
            assert(prev.last() <= total - (n - 1 - (k - 2)));
        }
    }
}

/// What lands on a tick from an ornament figure.
#[derive(Debug, Clone, Copy, PartialEq, Eq)]
pub struct OrnamentHit {
    /// Index of the hit within the figure.
    pub index: u32,
    /// Whether it is the main hit (the source note itself) rather than a
    /// grace hit.
    pub is_main: bool,
    /// Ticks to the next hit (the base spacing for the last hit); a grace
    /// hit's length is this gap times the grace gate.
    pub gap: i64,
}

/// The first tick of the figure of a note starting at `start`.
pub open spec fn figure_start(f: OrnamentFigure, start: int) -> int {
    match f.placement {
        OrnamentPlacement::LeadIn => start - figure_span(f),
        OrnamentPlacement::OnBeat => start,
    }
}

/// The first index `k` below `n` whose onset is `rel`.
pub open spec fn first_onset_at(onsets: Seq<int>, k: int, rel: int) -> Option<int>
    decreases k,
{
    if k <= 0 {
        None
    } else {
        match first_onset_at(onsets, k - 1, rel) {
            Some(i) => Some(i),
            None => if onsets[k - 1] == rel { Some(k - 1) } else { None },
        }
    }
}

/// The hit of figure `f` on a note starting at `start` that lands on `tick`,
/// given the curve's raw onsets: none for a figure of fewer than two hits or a
/// tick outside the figure; else (index, is-main, gap to the next hit).
pub open spec fn hit_of(f: OrnamentFigure, start: int, tick: int, raw: Seq<i64>) -> Option<(int, bool, int)> {
    let n = figure_hits(f);
    let total = figure_span(f);
    let rel = tick - figure_start(f, start);
    if n < 2 || rel < 0 || rel > total {
        None
    } else {
        let on = onsets_upto(raw, n, total, n);
        match first_onset_at(on, n, rel) {
            None => None,
            Some(k) => {
                let is_main = match f.placement {
                    OrnamentPlacement::LeadIn => k + 1 == n,
                    OrnamentPlacement::OnBeat => k == 0,
                };
                let gap = if k + 1 < n { on[k + 1] - on[k] } else { figure_base(f) };
                Some((k, is_main, gap))
            },
        }
    }
}

impl OrnamentFigure {
    /// Effective hit count (`< 2` means "no figure": the note plays plainly).
    pub fn hits(&self) -> (r: u32)
        ensures
            r == figure_hits(*self),
    {
        if self.count < MAX_ORNAMENT_HITS {
            self.count as u32
        } else {
            MAX_ORNAMENT_HITS as u32
        }
    }

    /// The figure's onsets (offsets from its first hit) from the curve's raw
    /// onsets: strictly increasing, first at 0 and last at the full span when
    /// the raw curve reaches them.
    pub fn onsets(&self, raw: &[i64]) -> (r: Vec<i64>)
        requires
            raw@.len() == figure_hits(*self),
            figure_hits(*self) >= 1,
        ensures
            r@.map_values(|x: i64| x as int) == onsets_upto(raw@, figure_hits(*self), figure_span(*self), figure_hits(*self)),
    {
        let n: u32 = self.hits();
        let base: i64 = if self.spacing.0 < 1 { 1 } else { self.spacing.0 as i64 };
        assert((n - 1) * base <= 63 * 0xffff_ffff) by (nonlinear_arith)
            requires
                1 <= n <= 64,
                1 <= base <= 0xffff_ffff,
        ;
        assert((n - 1) * base >= n - 1) by (nonlinear_arith)
            requires
                1 <= n,
                1 <= base,
        ;
        let total: i64 = (n as i64 - 1) * base;
        let mut out: Vec<i64> = Vec::new();
        let mut k: u32 = 0;
        proof {
            assert(out@.map_values(|x: i64| x as int) =~= Seq::<int>::empty());
        }
        while k < n
            invariant
                k <= n,
                n == figure_hits(*self),
                n <= 64,
                raw@.len() == n,
                total == figure_span(*self),
                total >= n - 1,
                total <= 63 * 0xffff_ffff,
                out@.map_values(|x: i64| x as int) == onsets_upto(raw@, n as int, total as int, k as int),
            decreases n - k,
        {
            proof {
                lemma_onsets_strictly_increasing(raw@, n as int, total as int, k as int);
                if k > 0 {
                    assert(out@.map_values(|x: i64| x as int)[k - 1] == out@[k - 1] as int);
                }
            }
            let lower: i64 = if k == 0 { 0 } else { out[(k - 1) as usize] + 1 };
            let upper: i64 = total - (n - 1 - k) as i64;
            let r: i64 = raw[k as usize];
            let onset: i64 = if r < lower { lower } else if r > upper { upper } else { r };
            let ghost old_out = out@;
            out.push(onset);
            proof {
                assert(out@.map_values(|x: i64| x as int) =~= old_out.map_values(|x: i64| x as int).push(onset as int));
            }
            k = k + 1;
        }
        out
    }

    /// The hit of this figure, on a note starting at `start`, that lands on
    /// `tick` (see [`hit_of`]). `raw` holds the curve's raw onsets, one per
    /// hit.
    #[verifier::loop_isolation(false)]
    pub fn hit_at(&self, start: u32, tick: u32, raw: &[i64]) -> (r: Option<OrnamentHit>)
        requires
            raw@.len() == figure_hits(*self),
        ensures
            (match r {
                Some(h) => Some((h.index as int, h.is_main, h.gap as int)),
                None => None,
            }) == hit_of(*self, start as int, tick as int, raw@),
    {
        let n: u32 = self.hits();
        if n < 2 {
            return None;
        }
        let base: i64 = if self.spacing.0 < 1 { 1 } else { self.spacing.0 as i64 };
        assert((n - 1) * base <= 63 * 0xffff_ffff) by (nonlinear_arith)
            requires
                1 <= n <= 64,
                1 <= base <= 0xffff_ffff,
        ;
        assert((n - 1) * base >= n - 1) by (nonlinear_arith)
            requires
                1 <= n,
                1 <= base,
        ;
        let total: i64 = (n as i64 - 1) * base;
        let first: i64 = match self.placement {
            OrnamentPlacement::LeadIn => start as i64 - total,
            OrnamentPlacement::OnBeat => start as i64,
        };
        let rel: i64 = tick as i64 - first;
        if rel < 0 || rel > total {
            return None;
        }
        let on = self.onsets(raw);
        let ghost spec_on = onsets_upto(raw@, n as int, total as int, n as int);
        proof {
            lemma_onsets_strictly_increasing(raw@, n as int, total as int, n as int);
            assert(on@.map_values(|x: i64| x as int) == spec_on);
            assert(on@.len() == n);
        }
        let mut k: usize = 0;
        while k < n as usize
            invariant
                k <= n,
                on@.len() == n,
                n >= 2,
                raw@.len() == n,
                total == figure_span(*self),
                total >= n - 1,
                forall|i: int| 0 <= i < n ==> 0 <= #[trigger] spec_on[i] <= total,
                spec_on == on@.map_values(|x: i64| x as int),
                first_onset_at(spec_on, k as int, rel as int) is None,
            decreases n - k,
        {
            if on[k] == rel {
                assert(first_onset_at(spec_on, k + 1, rel as int) == Some(k as int));
                let is_main = match self.placement {
                    OrnamentPlacement::LeadIn => k + 1 == n as usize,
                    OrnamentPlacement::OnBeat => k == 0,
                };
                proof {
                    lemma_onsets_strictly_increasing(raw@, n as int, total as int, n as int);
                    lemma_first_onset_stable(spec_on, k + 1, n as int, rel as int);
                }
                proof {
                    if k + 1 < n {
                        assert(spec_on[k + 1] == on@[k + 1] as int);
                        assert(spec_on[k as int] == on@[k as int] as int);
                        assert(0 <= spec_on[k + 1] <= total);
                        assert(0 <= spec_on[k as int] <= total);
                    }
                }
                let gap: i64 = if k + 1 < n as usize { on[k + 1] - on[k] } else { base };
                return Some(OrnamentHit { index: k as u32, is_main, gap });
            }
            k = k + 1;
        }
        None
    }

    /// The last tick an on-beat figure of two or more hits reaches on a note
    /// starting at `start` (its final hit, plus one); 0 for any other figure.
    pub fn reach(&self, start: u32) -> (r: u32)
        requires
            figure_hits(*self) >= 2 && self.placement == OrnamentPlacement::OnBeat ==> figure_span(*self)
                <= u32::MAX,
        ensures
            r == (if figure_hits(*self) >= 2 && self.placement == OrnamentPlacement::OnBeat {
                clamp_int(start + 1 + figure_span(*self), 0, u32::MAX as int)
            } else {
                0
            }),
    {
        let n: u32 = self.hits();
        if n >= 2 && self.placement == OrnamentPlacement::OnBeat {
            let base: u32 = if self.spacing.0 < 1 { 1 } else { self.spacing.0 };
            let span: u32 = (n - 1) * base;
            start.saturating_add(1).saturating_add(span)
        } else {
            0
        }
    }
}

/// Once found, the first matching onset stays the first as the prefix grows.
proof fn lemma_first_onset_stable(onsets: Seq<int>, k: int, m: int, rel: int)
    requires
        0 < k <= m,
        first_onset_at(onsets, k, rel) is Some,
    ensures
        first_onset_at(onsets, m, rel) == first_onset_at(onsets, k, rel),
    decreases m - k,
{
    if m > k {
        lemma_first_onset_stable(onsets, k, m - 1, rel);
    }
}

/// The last tick a note's own material can reach: its end (or `start + 1`
/// when it has no duration), or the end of an on-beat ornament figure if that
/// is later.
pub open spec fn note_reach(n: Note, figure: Option<OrnamentFigure>) -> int {
    let span_end = match note_end(n) {
        Some(e) => e,
        None => clamp_int(n.start.0 + 1, 0, u32::MAX as int),
    };
    let orn_end = match figure {
        Some(f) => if figure_hits(f) >= 2 && f.placement == OrnamentPlacement::OnBeat {
            clamp_int(n.start.0 + 1 + figure_span(f), 0, u32::MAX as int)
        } else {
            0
        },
        None => 0,
    };
    if span_end >= orn_end {
        span_end
    } else {
        orn_end
    }
}

/// Whether a note's reach can be computed without overflow: its end fits
/// the tick range and an on-beat figure's span does too.
pub open spec fn reach_fits(n: Note, figure: Option<OrnamentFigure>) -> bool {
    &&& (note_end(n) matches Some(e) ==> e <= u32::MAX)
    &&& (figure matches Some(f) ==> (figure_hits(f) >= 2 && f.placement == OrnamentPlacement::OnBeat
        ==> figure_span(f) <= u32::MAX))
}

/// The largest reach among the first `k` notes, and `length`.
pub open spec fn walk_end_upto(length: int, notes: Seq<Note>, figures: Seq<Option<OrnamentFigure>>, k: int) -> int
    decreases k,
{
    if k <= 0 {
        length
    } else {
        let prev = walk_end_upto(length, notes, figures, k - 1);
        let r = note_reach(notes[k - 1], figures[k - 1]);
        if r > prev {
            r
        } else {
            prev
        }
    }
}

/// The last tick a pattern's own source material can reach: the max of its
/// length and every note's reach (`figures[i]` is the ornament of
/// `notes[i]`). A bake walks `0..` this.
pub fn source_walk_end(length: Duration, notes: &[Note], figures: &[Option<OrnamentFigure>]) -> (r: u32)
    requires
        notes@.len() == figures@.len(),
        forall|i: int| 0 <= i < notes@.len() ==> reach_fits(#[trigger] notes@[i], figures@[i]),
    ensures
        r == walk_end_upto(length.0 as int, notes@, figures@, notes@.len() as int),
{
    let mut best: u32 = length.0;
    let mut i: usize = 0;
    while i < notes.len()
        invariant
            i <= notes@.len(),
            notes@.len() == figures@.len(),
            forall|i: int| 0 <= i < notes@.len() ==> reach_fits(#[trigger] notes@[i], figures@[i]),
            best == walk_end_upto(length.0 as int, notes@, figures@, i as int),
        decreases notes@.len() - i,
    {
        let n = notes[i];
        assert(reach_fits(notes@[i as int], figures@[i as int]));
        let span_end: u32 = match n.end() {
            Some(e) => e.0,
            None => n.start.0.saturating_add(1),
        };
        let orn_end: u32 = match figures[i] {
            Some(f) => f.reach(n.start.0),
            None => 0,
        };
        let reach: u32 = if span_end >= orn_end { span_end } else { orn_end };
        if reach > best {
            best = reach;
        }
        i = i + 1;
    }
    best
}


// ----------------------------------------------------------------------------
// Seeding a tick's source stream
// ----------------------------------------------------------------------------

/// An ornament hit as (index, main, gap).
pub open spec fn hit_view(h: OrnamentHit) -> (int, bool, int) {
    (h.index as int, h.is_main, h.gap as int)
}

/// A seeded entry as (note index, ornament hit).
pub open spec fn seed_view(e: (usize, Option<OrnamentHit>)) -> (int, Option<(int, bool, int)>) {
    (
        e.0 as int,
        match e.1 {
            Some(h) => Some(hit_view(h)),
            None => None,
        },
    )
}

/// Whether a note plays through an ornament figure (two or more hits).
pub open spec fn has_figure(figure: Option<OrnamentFigure>) -> bool {
    figure matches Some(f) && figure_hits(f) >= 2
}

/// What the first `n` notes contribute to the source stream at `tick`: a
/// note with an ornament figure contributes the hit of its figure that lands
/// on `tick`, a plain note contributes itself when it starts at `tick`; in
/// both cases only when its gate passes (`passes[i]`).
pub open spec fn seed_upto(
    notes: Seq<Note>,
    figures: Seq<Option<OrnamentFigure>>,
    raw: Seq<Seq<i64>>,
    tick: int,
    passes: Seq<bool>,
    n: int,
) -> Seq<(int, Option<(int, bool, int)>)>
    decreases n,
{
    if n <= 0 {
        Seq::empty()
    } else {
        let prev = seed_upto(notes, figures, raw, tick, passes, n - 1);
        let i = n - 1;
        if !passes[i] {
            prev
        } else if has_figure(figures[i]) {
            match hit_of(figures[i]->0, notes[i].start.0 as int, tick, raw[i]) {
                Some(h) => prev.push((i, Some(h))),
                None => prev,
            }
        } else if notes[i].start.0 == tick {
            prev.push((i, None))
        } else {
            prev
        }
    }
}

/// The source stream at `tick`, in note order: for each note whose gate
/// passes (`passes[i]`), the hit of its ornament figure (`figures[i]`, with
/// raw curve onsets `raw[i]`) landing on `tick`, or, for a plain note, the
/// note itself when it starts at `tick`.
pub fn seed_hits(
    notes: &[Note],
    figures: &[Option<OrnamentFigure>],
    raw: &[Vec<i64>],
    tick: PatternTick,
    passes: &[bool],
) -> (r: Vec<(usize, Option<OrnamentHit>)>)
    requires
        figures@.len() == notes@.len(),
        raw@.len() == notes@.len(),
        passes@.len() == notes@.len(),
        forall|i: int| 0 <= i < notes@.len() && has_figure(#[trigger] figures@[i]) ==> raw@[i]@.len() == figure_hits(
            figures@[i]->0,
        ),
    ensures
        r@.map_values(|e: (usize, Option<OrnamentHit>)| seed_view(e)) == seed_upto(
            notes@,
            figures@,
            raw@.map_values(|v: Vec<i64>| v@),
            tick.0 as int,
            passes@,
            notes@.len() as int,
        ),
{
    let ghost raws = raw@.map_values(|v: Vec<i64>| v@);
    let mut out: Vec<(usize, Option<OrnamentHit>)> = Vec::new();
    let mut i: usize = 0;
    proof {
        assert(out@.map_values(|e: (usize, Option<OrnamentHit>)| seed_view(e)) =~= Seq::empty());
    }
    while i < notes.len()
        invariant
            i <= notes@.len(),
            figures@.len() == notes@.len(),
            raw@.len() == notes@.len(),
            passes@.len() == notes@.len(),
            raws == raw@.map_values(|v: Vec<i64>| v@),
            forall|i: int| 0 <= i < notes@.len() && has_figure(#[trigger] figures@[i]) ==> raw@[i]@.len() == figure_hits(
                figures@[i]->0,
            ),
            out@.map_values(|e: (usize, Option<OrnamentHit>)| seed_view(e)) == seed_upto(
                notes@,
                figures@,
                raws,
                tick.0 as int,
                passes@,
                i as int,
            ),
        decreases notes@.len() - i,
    {
        let ghost before = out@.map_values(|e: (usize, Option<OrnamentHit>)| seed_view(e));
        proof {
            assert(raws[i as int] == raw@[i as int]@);
        }
        if passes[i] {
            let plain = match figures[i] {
                Some(f) => {
                    if f.hits() >= 2 {
                        match f.hit_at(notes[i].start.0, tick.0, raw[i].as_slice()) {
                            Some(h) => {
                                out.push((i, Some(h)));
                                proof {
                                    assert(out@.map_values(|e: (usize, Option<OrnamentHit>)| seed_view(e)) =~= before.push(
                                        (i as int, Some(hit_view(h))),
                                    ));
                                }
                            },
                            None => {},
                        }
                        false
                    } else {
                        true
                    }
                },
                None => true,
            };
            if plain && notes[i].start.0 == tick.0 {
                out.push((i, None));
                proof {
                    assert(out@.map_values(|e: (usize, Option<OrnamentHit>)| seed_view(e)) =~= before.push(
                        (i as int, None),
                    ));
                }
            }
        }
        i = i + 1;
    }
    out
}

/// Seeding keeps note order and lets a note through only when its gate
/// passes: the note indices of the seeded stream strictly increase, and each
/// names a note whose gate passed.
pub proof fn lemma_seed_in_note_order(
    notes: Seq<Note>,
    figures: Seq<Option<OrnamentFigure>>,
    raw: Seq<Seq<i64>>,
    tick: int,
    passes: Seq<bool>,
)
    requires
        passes.len() == notes.len(),
    ensures
        ({
            let s = seed_upto(notes, figures, raw, tick, passes, notes.len() as int);
            &&& forall|i: int, j: int| 0 <= i < j < s.len() ==> (#[trigger] s[i]).0 < (#[trigger] s[j]).0
            &&& forall|i: int| 0 <= i < s.len() ==> 0 <= (#[trigger] s[i]).0 < notes.len() && passes[s[i].0]
        }),
{
    lemma_seed_upto_order(notes, figures, raw, tick, passes, notes.len() as int);
}

proof fn lemma_seed_upto_order(
    notes: Seq<Note>,
    figures: Seq<Option<OrnamentFigure>>,
    raw: Seq<Seq<i64>>,
    tick: int,
    passes: Seq<bool>,
    n: int,
)
    requires
        n <= notes.len(),
    ensures
        ({
            let s = seed_upto(notes, figures, raw, tick, passes, n);
            &&& forall|i: int, j: int| 0 <= i < j < s.len() ==> (#[trigger] s[i]).0 < (#[trigger] s[j]).0
            &&& forall|i: int| 0 <= i < s.len() ==> 0 <= (#[trigger] s[i]).0 < n && passes[s[i].0]
        }),
    decreases n,
{
    if n > 0 {
        lemma_seed_upto_order(notes, figures, raw, tick, passes, n - 1);
        let prev = seed_upto(notes, figures, raw, tick, passes, n - 1);
        let s = seed_upto(notes, figures, raw, tick, passes, n);
        assert(s == prev || (s.len() == prev.len() + 1 && s.drop_last() == prev && s.last().0 == n - 1
            && passes[n - 1]));
        if s != prev {
            assert forall|i: int| 0 <= i < s.len() - 1 implies #[trigger] s[i] == prev[i] by {
                assert(s.drop_last()[i] == s[i]);
            }
        }
    }
}

} // verus!
