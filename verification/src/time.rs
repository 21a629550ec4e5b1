//! Time types for the sequencer.
//!
//! All time is represented in ticks with 960 PPQN (pulses per quarter note).
use vstd::prelude::*;
use vstd::std_specs::ops::{AddSpecImpl, MulSpecImpl, SubSpecImpl};

verus! {

/// Ticks per quarter note (PPQN).
pub const TICKS_PER_QUARTER: u32 = 960;

/// Absolute position on the song timeline.
#[derive(Debug, Clone, Copy, PartialEq, Eq, PartialOrd, Ord, Hash, Default, Structural)]
pub struct Tick(pub u64);

/// Relative position within a pattern (0 = pattern start).
#[derive(Debug, Clone, Copy, PartialEq, Eq, PartialOrd, Ord, Hash, Default, Structural)]
pub struct PatternTick(pub u32);

/// Duration in ticks.
#[derive(Debug, Clone, Copy, PartialEq, Eq, PartialOrd, Ord, Hash, Default, Structural)]
pub struct Duration(pub u32);

/// Time signature (e.g., 4/4, 3/4, 6/8).
#[derive(Debug, Clone, Copy, PartialEq, Eq, Hash, Structural)]
pub struct TimeSignature {
    pub numerator: u8,
    pub denominator: u8,
}

/// `a - b`, or zero when `b` exceeds `a`.
pub open spec fn sat_sub(a: int, b: int) -> int {
    if a >= b { a - b } else { 0 }
}

/// Ticks in one bar of `ts`: `960 * numerator * 4 / denominator`.
pub open spec fn spec_ticks_per_bar(ts: TimeSignature) -> int {
    (960 * (ts.numerator as int) * 4) / (ts.denominator as int)
}

/// Ticks in one beat of `ts`: `960 * 4 / denominator`.
pub open spec fn spec_ticks_per_beat(ts: TimeSignature) -> int {
    3840int / (ts.denominator as int)
}

/// Tick position of `(bar, beat, tick)` under `ts`.
pub open spec fn spec_bar_beat_tick_position(bar: int, beat: int, tick: int, ts: TimeSignature) -> int {
    bar * spec_ticks_per_bar(ts) + beat * spec_ticks_per_beat(ts) + tick
}

/// The `(bar, beat, tick)` reading of timeline position `t` under `ts`: the
/// bar count truncated to 32 bits, then the beat and tick inside that bar.
pub open spec fn spec_to_bar_beat_tick(t: u64, ts: TimeSignature) -> (u32, u32, u32) {
    let tpb = spec_ticks_per_bar(ts) as u64;
    let tpbeat = spec_ticks_per_beat(ts) as u64;
    ((t / tpb) as u32, ((t % tpb) / tpbeat) as u32, ((t % tpb) % tpbeat) as u32)
}

/// Converting a `(bar, beat, tick)` position to ticks and back gives the same
/// triple, as long as the beat and tick lie inside one bar and the tick inside
/// one beat.
pub proof fn lemma_bar_beat_tick_round_trip(bar: u32, beat: u32, tick: u32, ts: TimeSignature)
    requires
        ts.denominator > 0,
        tick < spec_ticks_per_beat(ts),
        beat * spec_ticks_per_beat(ts) + tick < spec_ticks_per_bar(ts),
    ensures
        spec_to_bar_beat_tick(
            spec_bar_beat_tick_position(bar as int, beat as int, tick as int, ts) as u64,
            ts,
        ) == (bar, beat, tick),
{
    let tpb = spec_ticks_per_bar(ts);
    let tpbeat = spec_ticks_per_beat(ts);
    let r = beat * tpbeat + tick;
    let pos = bar * tpb + r;
    assert(0 <= tpb <= 979200) by (nonlinear_arith)
        requires tpb == (960 * (ts.numerator as int) * 4) / (ts.denominator as int), ts.denominator >= 1,
            ts.numerator <= 255;
    assert(0 <= tpbeat <= 3840) by (nonlinear_arith)
        requires tpbeat == 3840int / (ts.denominator as int), ts.denominator >= 1;
    assert(0 <= beat * tpbeat) by (nonlinear_arith)
        requires tpbeat >= 0;
    assert(0 <= bar * tpb <= 0xffff_ffff * 979200) by (nonlinear_arith)
        requires 0 <= tpb <= 979200, bar <= 0xffff_ffff;
    assert(pos == spec_bar_beat_tick_position(bar as int, beat as int, tick as int, ts));
    vstd::arithmetic::div_mod::lemma_fundamental_div_mod_converse(pos, tpb, bar as int, r);
    vstd::arithmetic::div_mod::lemma_fundamental_div_mod_converse(r, tpbeat, beat as int, tick as int);
}

impl Tick {
    /// The start of the timeline.
    pub fn zero() -> (r: Self)
        ensures
            r.0 == 0,
    {
        Tick(0)
    }

    /// Create a Tick from a pattern-local tick and the pattern's start position.
    pub fn from_pattern_tick(pattern_start: Self, offset: PatternTick) -> (r: Self)
        requires
            pattern_start.0 + offset.0 <= u64::MAX,
        ensures
            r.0 == pattern_start.0 + offset.0,
    {
        Tick(pattern_start.0 + offset.0 as u64)
    }

    /// Convert to bar, beat, tick representation.
    ///
    /// The bar count is truncated to 32 bits; the beat and tick are the
    /// position inside the bar.
    pub fn to_bar_beat_tick(&self, time_sig: TimeSignature) -> (r: (u32, u32, u32))
        requires
            time_sig.denominator > 0,
            spec_ticks_per_bar(time_sig) > 0,
        ensures
            r == spec_to_bar_beat_tick(self.0, time_sig),
    {
        let ticks_per_bar = time_sig.ticks_per_bar();
        let bar = (self.0 / ticks_per_bar as u64) as u32;
        let remaining = self.0 % ticks_per_bar as u64;
        let ticks_per_beat = time_sig.ticks_per_beat();
        assert(ticks_per_beat > 0);
        let beat = (remaining / ticks_per_beat as u64) as u32;
        let tick = (remaining % ticks_per_beat as u64) as u32;
        (bar, beat, tick)
    }

    /// Create from bar, beat, tick representation.
    pub fn from_bar_beat_tick(bar: u32, beat: u32, tick: u32, time_sig: TimeSignature) -> (r: Self)
        requires
            time_sig.denominator > 0,
        ensures
            r.0 == spec_bar_beat_tick_position(bar as int, beat as int, tick as int, time_sig),
    {
        let ticks_per_bar = time_sig.ticks_per_bar();
        let ticks_per_beat = time_sig.ticks_per_beat();
        assert(bar as u64 * ticks_per_bar as u64 <= 0xffff_ffffu64 * 979200u64) by (nonlinear_arith)
            requires ticks_per_bar <= 979200;
        assert(beat as u64 * ticks_per_beat as u64 <= 0xffff_ffffu64 * 3840u64) by (nonlinear_arith)
            requires ticks_per_beat <= 3840;
        Tick(bar as u64 * ticks_per_bar as u64 + beat as u64 * ticks_per_beat as u64 + tick as u64)
    }
}

impl core::ops::Add for Tick {
    type Output = Self;

    fn add(self, rhs: Self) -> (r: Self) {
        Tick(self.0 + rhs.0)
    }
}

impl AddSpecImpl for Tick {
    open spec fn obeys_add_spec() -> bool {
        true
    }

    open spec fn add_req(self, rhs: Self) -> bool {
        self.0 + rhs.0 <= u64::MAX
    }

    open spec fn add_spec(self, rhs: Self) -> Self {
        Tick((self.0 + rhs.0) as u64)
    }
}

impl core::ops::Sub for Tick {
    type Output = Self;

    /// Distance from `rhs` to `self`, saturating at zero.
    fn sub(self, rhs: Self) -> (r: Self) {
        Tick(self.0.saturating_sub(rhs.0))
    }
}

impl SubSpecImpl for Tick {
    open spec fn obeys_sub_spec() -> bool {
        true
    }

    open spec fn sub_req(self, rhs: Self) -> bool {
        true
    }

    open spec fn sub_spec(self, rhs: Self) -> Self {
        Tick(sat_sub(self.0 as int, rhs.0 as int) as u64)
    }
}

impl core::ops::Add<Duration> for Tick {
    type Output = Self;

    fn add(self, rhs: Duration) -> (r: Self) {
        Tick(self.0 + rhs.0 as u64)
    }
}

impl AddSpecImpl<Duration> for Tick {
    open spec fn obeys_add_spec() -> bool {
        true
    }

    open spec fn add_req(self, rhs: Duration) -> bool {
        self.0 + rhs.0 <= u64::MAX
    }

    open spec fn add_spec(self, rhs: Duration) -> Self {
        Tick((self.0 + rhs.0) as u64)
    }
}

impl PatternTick {
    /// The start of the pattern.
    pub fn zero() -> (r: Self)
        ensures
            r.0 == 0,
    {
        PatternTick(0)
    }
}

impl core::ops::Add for PatternTick {
    type Output = Self;

    fn add(self, rhs: Self) -> (r: Self) {
        PatternTick(self.0 + rhs.0)
    }
}

impl AddSpecImpl for PatternTick {
    open spec fn obeys_add_spec() -> bool {
        true
    }

    open spec fn add_req(self, rhs: Self) -> bool {
        self.0 + rhs.0 <= u32::MAX
    }

    open spec fn add_spec(self, rhs: Self) -> Self {
        PatternTick((self.0 + rhs.0) as u32)
    }
}

impl core::ops::Sub for PatternTick {
    type Output = Duration;

    /// The gap from `rhs` to `self`, saturating at zero.
    fn sub(self, rhs: Self) -> (r: Duration) {
        Duration(self.0.saturating_sub(rhs.0))
    }
}

impl SubSpecImpl for PatternTick {
    open spec fn obeys_sub_spec() -> bool {
        true
    }

    open spec fn sub_req(self, rhs: Self) -> bool {
        true
    }

    open spec fn sub_spec(self, rhs: Self) -> Duration {
        Duration(sat_sub(self.0 as int, rhs.0 as int) as u32)
    }
}

impl core::ops::Add<Duration> for PatternTick {
    type Output = Self;

    fn add(self, rhs: Duration) -> (r: Self) {
        PatternTick(self.0 + rhs.0)
    }
}

impl AddSpecImpl<Duration> for PatternTick {
    open spec fn obeys_add_spec() -> bool {
        true
    }

    open spec fn add_req(self, rhs: Duration) -> bool {
        self.0 + rhs.0 <= u32::MAX
    }

    open spec fn add_spec(self, rhs: Duration) -> Self {
        PatternTick((self.0 + rhs.0) as u32)
    }
}

impl Duration {
    /// Whole note (4 beats).
    pub fn whole() -> (r: Self)
        ensures
            r.0 == 3840,
    {
        Duration(3840)
    }

    /// Half note (2 beats).
    pub fn half() -> (r: Self)
        ensures
            r.0 == 1920,
    {
        Duration(1920)
    }

    /// Quarter note (1 beat).
    pub fn quarter() -> (r: Self)
        ensures
            r.0 == 960,
    {
        Duration(960)
    }

    /// Eighth note (1/2 beat).
    pub fn eighth() -> (r: Self)
        ensures
            r.0 == 480,
    {
        Duration(480)
    }

    /// Sixteenth note (1/4 beat).
    pub fn sixteenth() -> (r: Self)
        ensures
            r.0 == 240,
    {
        Duration(240)
    }

    /// 32nd note.
    pub fn thirty_second() -> (r: Self)
        ensures
            r.0 == 120,
    {
        Duration(120)
    }

    /// Triplet quarter note.
    pub fn triplet_quarter() -> (r: Self)
        ensures
            r.0 == 640,
    {
        Duration(640)
    }

    /// Triplet eighth note.
    pub fn triplet_eighth() -> (r: Self)
        ensures
            r.0 == 320,
    {
        Duration(320)
    }

    /// Create a dotted duration (1.5x length).
    pub fn dotted(self) -> (r: Self)
        requires
            self.0 + self.0 / 2 <= u32::MAX,
        ensures
            r.0 == self.0 + self.0 / 2,
    {
        Duration(self.0 + self.0 / 2)
    }

    /// Convert this duration to a pattern-relative tick position.
    pub fn as_pattern_tick(self) -> (r: PatternTick)
        ensures
            r.0 == self.0,
    {
        PatternTick(self.0)
    }
}

impl core::ops::Add for Duration {
    type Output = Self;

    fn add(self, rhs: Self) -> (r: Self) {
        Duration(self.0 + rhs.0)
    }
}

impl AddSpecImpl for Duration {
    open spec fn obeys_add_spec() -> bool {
        true
    }

    open spec fn add_req(self, rhs: Self) -> bool {
        self.0 + rhs.0 <= u32::MAX
    }

    open spec fn add_spec(self, rhs: Self) -> Self {
        Duration((self.0 + rhs.0) as u32)
    }
}

impl core::ops::Sub for Duration {
    type Output = Self;

    /// Difference of two durations, saturating at zero.
    fn sub(self, rhs: Self) -> (r: Self) {
        Duration(self.0.saturating_sub(rhs.0))
    }
}

impl SubSpecImpl for Duration {
    open spec fn obeys_sub_spec() -> bool {
        true
    }

    open spec fn sub_req(self, rhs: Self) -> bool {
        true
    }

    open spec fn sub_spec(self, rhs: Self) -> Self {
        Duration(sat_sub(self.0 as int, rhs.0 as int) as u32)
    }
}

impl core::ops::Mul<u32> for Duration {
    type Output = Self;

    fn mul(self, rhs: u32) -> (r: Self) {
        Duration(self.0 * rhs)
    }
}

impl MulSpecImpl<u32> for Duration {
    open spec fn obeys_mul_spec() -> bool {
        true
    }

    open spec fn mul_req(self, rhs: u32) -> bool {
        self.0 * rhs <= u32::MAX
    }

    open spec fn mul_spec(self, rhs: u32) -> Self {
        Duration((self.0 * rhs) as u32)
    }
}

impl TimeSignature {
    /// Common time (4/4).
    pub fn common() -> (r: Self)
        ensures
            r.numerator == 4 && r.denominator == 4,
    {
        TimeSignature { numerator: 4, denominator: 4 }
    }

    /// Waltz time (3/4).
    pub fn waltz() -> (r: Self)
        ensures
            r.numerator == 3 && r.denominator == 4,
    {
        TimeSignature { numerator: 3, denominator: 4 }
    }

    /// 6/8 time.
    pub fn six_eight() -> (r: Self)
        ensures
            r.numerator == 6 && r.denominator == 8,
    {
        TimeSignature { numerator: 6, denominator: 8 }
    }

    /// Create a new time signature.
    pub fn new(numerator: u8, denominator: u8) -> (r: Self)
        ensures
            r.numerator == numerator,
            r.denominator == denominator,
    {
        TimeSignature { numerator, denominator }
    }

    /// Ticks per bar.
    pub fn ticks_per_bar(&self) -> (r: u32)
        requires
            self.denominator > 0,
        ensures
            r == spec_ticks_per_bar(*self),
            r <= 979200,
    {
        let num = self.numerator as u32;
        let den = self.denominator as u32;
        assert(960 * num * 4 <= 979200) by (nonlinear_arith)
            requires num <= 255;
        let top = TICKS_PER_QUARTER * num * 4;
        let r = top / den;
        assert(r <= top) by (nonlinear_arith)
            requires r == top / den, den >= 1;
        r
    }

    /// Ticks per beat.
    pub fn ticks_per_beat(&self) -> (r: u32)
        requires
            self.denominator > 0,
        ensures
            r == spec_ticks_per_beat(*self),
            r <= 3840,
            r > 0 <==> self.denominator <= 3840,
    {
        let den = self.denominator as u32;
        let r = TICKS_PER_QUARTER * 4 / den;
        assert(r <= 3840 && (r > 0 <==> den <= 3840)) by (nonlinear_arith)
            requires r == 3840u32 / den, den >= 1;
        r
    }
}

impl Default for TimeSignature {
    fn default() -> (r: Self)
        ensures
            r.numerator == 4 && r.denominator == 4,
    {
        TimeSignature::common()
    }
}

} // verus!
