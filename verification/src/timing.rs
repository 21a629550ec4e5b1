//! The look-back of the Note Grid's timing nodes (delay/echo and ratchet).
//!
//! A timing node is stateless: at each tick it re-evaluates the graph prefix
//! at earlier ticks and copies what entered the node there. This module
//! decides *which* earlier ticks are probed and what a ratchet does to note
//! lengths; the decaying gain of each copy is a real-valued factor applied by
//! the caller, which also tells these functions how many copies are still
//! audible (gains only shrink, so the audible copies are a prefix).
use vstd::prelude::*;

use crate::note_graph::{NoteDelay, Ratchet};
use crate::note_processor::MAX_NOTE_DELAY_TICKS;
use crate::time::{Duration, PatternTick};

verus! {

/// The smallest of `a`, `b` and `c`.
pub open spec fn min3(a: int, b: int, c: int) -> int {
    let ab = if a <= b { a } else { b };
    if ab <= c { ab } else { c }
}

/// The ticks probed from `tick` for copies `1..=count` spaced `step` apart:
/// `tick − k·step` for every `k` up to the count, the look-back window and the
/// pattern start, whichever stops first.
pub open spec fn lookback_ticks(tick: int, step: int, count: int) -> Seq<int> {
    let k = min3(count, MAX_NOTE_DELAY_TICKS as int / step, tick / step);
    Seq::new(if k < 0 { 0 } else { k as nat }, |i: int| tick - (i + 1) * step)
}

/// The earlier ticks probed from `tick` for copies `1..=count` spaced `step`
/// ticks apart (`step ≥ 1`): nearest first, stopping past the look-back
/// window or before the pattern start.
pub fn probe_ticks(tick: PatternTick, step: u32, count: u32) -> (r: Vec<PatternTick>)
    requires
        step >= 1,
    ensures
        r@.map_values(|t: PatternTick| t.0 as int) == lookback_ticks(tick.0 as int, step as int, count as int),
{
    let mut out: Vec<PatternTick> = Vec::new();
    let mut k: u32 = 1;
    let ghost kmax = min3(count as int, MAX_NOTE_DELAY_TICKS as int / step as int, tick.0 as int / step as int);
    proof {
        assert(kmax * step <= MAX_NOTE_DELAY_TICKS) by (nonlinear_arith)
            requires
                kmax <= MAX_NOTE_DELAY_TICKS as int / step as int,
                step >= 1,
        ;
        assert(kmax * step <= tick.0) by (nonlinear_arith)
            requires
                kmax <= tick.0 as int / step as int,
                step >= 1,
        ;
        assert(out@.map_values(|t: PatternTick| t.0 as int) =~= lookback_ticks(tick.0 as int, step as int, 0));
    }
    while k <= count
        invariant
            1 <= k,
            k - 1 <= kmax || kmax < 0,
            step >= 1,
            kmax == min3(count as int, MAX_NOTE_DELAY_TICKS as int / step as int, tick.0 as int / step as int),
            kmax * step <= MAX_NOTE_DELAY_TICKS,
            kmax * step <= tick.0,
            out@.len() == k - 1,
            forall|i: int| 0 <= i < k - 1 ==> #[trigger] out@[i].0 == tick.0 - (i + 1) * step,
        ensures
            out@.len() == (if kmax < 0 { 0 } else { kmax }),
            forall|i: int| 0 <= i < out@.len() ==> #[trigger] out@[i].0 == tick.0 - (i + 1) * step,
        decreases count + 1 - k,
    {
        assert(k as u64 * step as u64 <= 0xffff_ffff_u64 * 0xffff_ffff_u64) by (nonlinear_arith)
            requires
                k <= 0xffff_ffff_u32,
                step <= 0xffff_ffff_u32,
        ;
        let back: u64 = k as u64 * step as u64;
        if back > MAX_NOTE_DELAY_TICKS as u64 || back > tick.0 as u64 {
            proof {
                assert(k > kmax) by (nonlinear_arith)
                    requires
                        back == k * step,
                        back > MAX_NOTE_DELAY_TICKS || back > tick.0,
                        kmax <= MAX_NOTE_DELAY_TICKS as int / step as int,
                        kmax <= tick.0 as int / step as int,
                        step >= 1,
                ;
            }
            break;
        }
        proof {
            assert(k <= MAX_NOTE_DELAY_TICKS as int / step as int) by (nonlinear_arith)
                requires
                    k * step <= MAX_NOTE_DELAY_TICKS,
                    step >= 1,
            ;
            assert(k <= tick.0 as int / step as int) by (nonlinear_arith)
                requires
                    k * step <= tick.0,
                    step >= 1,
            ;
        }
        out.push(PatternTick(tick.0 - back as u32));
        k = k + 1;
    }
    proof {
        let v = out@.map_values(|t: PatternTick| t.0 as int);
        assert(v =~= lookback_ticks(tick.0 as int, step as int, count as int));
    }
    out
}

/// The earlier ticks a delay node copies echoes from at `tick`: one per
/// live repeat, `delay_ticks` apart, limited to the first `audible` echoes.
/// None when the delay has no spacing.
pub fn echo_ticks(delay: &NoteDelay, tick: PatternTick, audible: u32) -> (r: Vec<PatternTick>)
    ensures
        r@.map_values(|t: PatternTick| t.0 as int) == (if delay.delay_ticks.0 == 0 {
            Seq::empty()
        } else {
            lookback_ticks(
                tick.0 as int,
                delay.delay_ticks.0 as int,
                min3(delay.repeats as int, 16, audible as int),
            )
        }),
{
    if delay.delay_ticks.0 == 0 {
        let r: Vec<PatternTick> = Vec::new();
        assert(r@.map_values(|t: PatternTick| t.0 as int) =~= Seq::<int>::empty());
        return r;
    }
    let live: u32 = delay.live_repeats() as u32;
    let count: u32 = if live < audible { live } else { audible };
    probe_ticks(tick, delay.delay_ticks.0, count)
}

/// Whether a ratchet subdivides at all: a spacing and at least two hits.
pub open spec fn ratchet_active(r: Ratchet) -> bool {
    r.sub_ticks.0 > 0 && min3(r.count as int, 16, 16) > 1
}

/// The earlier ticks a ratchet copies retriggers from at `tick`: hits
/// `1..count` after the onset, `sub_ticks` apart, limited to the first
/// `audible` retriggers. None when the ratchet does not subdivide.
pub fn retrigger_ticks(ratchet: &Ratchet, tick: PatternTick, audible: u32) -> (r: Vec<PatternTick>)
    ensures
        r@.map_values(|t: PatternTick| t.0 as int) == (if !ratchet_active(*ratchet) {
            Seq::empty()
        } else {
            lookback_ticks(
                tick.0 as int,
                ratchet.sub_ticks.0 as int,
                min3(min3(ratchet.count as int, 16, 16) - 1, audible as int, audible as int),
            )
        }),
{
    let live: u32 = ratchet.live_count() as u32;
    if ratchet.sub_ticks.0 == 0 || live <= 1 {
        let r: Vec<PatternTick> = Vec::new();
        assert(r@.map_values(|t: PatternTick| t.0 as int) =~= Seq::<int>::empty());
        return r;
    }
    let count: u32 = if live - 1 < audible { live - 1 } else { audible };
    probe_ticks(tick, ratchet.sub_ticks.0, count)
}

/// A dry onset under an active ratchet: a note longer than one subdivision
/// (or open-ended) is cut to one subdivision, so it becomes the first hit of
/// the roll instead of sustaining beneath it.
pub fn ratchet_dry_duration(ratchet: &Ratchet, duration: Option<Duration>) -> (r: Option<Duration>)
    ensures
        r == (if ratchet_active(*ratchet) && (duration matches Some(d) ==> d.0 > ratchet.sub_ticks.0) {
            Some(Duration(ratchet.sub_ticks.0))
        } else {
            duration
        }),
{
    let live = ratchet.live_count();
    if ratchet.sub_ticks.0 == 0 || live <= 1 {
        return duration;
    }
    match duration {
        Some(d) => if d.0 > ratchet.sub_ticks.0 {
            Some(Duration(ratchet.sub_ticks.0))
        } else {
            duration
        },
        None => Some(Duration(ratchet.sub_ticks.0)),
    }
}

/// The length of a retrigger `back` ticks after an onset of the given
/// duration: none once the source note has ended; otherwise the rest of the
/// note, at most one subdivision (a full subdivision for an open-ended note).
pub fn retrigger_duration(ratchet: &Ratchet, duration: Option<Duration>, back: u32) -> (r: Option<Duration>)
    ensures
        r == (match duration {
            Some(d) => if back >= d.0 {
                None
            } else {
                Some(Duration(if d.0 - back <= ratchet.sub_ticks.0 { (d.0 - back) as u32 } else { ratchet.sub_ticks.0 }))
            },
            None => Some(Duration(ratchet.sub_ticks.0)),
        }),
{
    match duration {
        Some(d) => {
            if back >= d.0 {
                None
            } else {
                let rest: u32 = d.0 - back;
                Some(Duration(if rest <= ratchet.sub_ticks.0 { rest } else { ratchet.sub_ticks.0 }))
            }
        },
        None => Some(Duration(ratchet.sub_ticks.0)),
    }
}

} // verus!
