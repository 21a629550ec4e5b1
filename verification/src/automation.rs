//! Automation: curve shapes, the parameters a lane can drive, and the lanes
//! themselves — points kept in tick order, at most one per tick.
//!
//! A point's value and the curve arithmetic between two points are
//! real-valued; a lane here is generic over the value type `V` and decides
//! only which points apply at a tick.
use vstd::prelude::*;

use crate::time::PatternTick;

verus! {

/// Strength of an exponential automation curve (`-127..=127`).
#[derive(Debug, Clone, Copy, PartialEq, Eq, Hash, Structural)]
pub struct CurveStrength(i8);

impl View for CurveStrength {
    type V = i8;

    closed spec fn view(&self) -> i8 {
        self.0
    }
}

impl CurveStrength {
    #[verifier::type_invariant]
    closed spec fn inv(self) -> bool {
        self.0 >= -127
    }

    /// No curvature.
    pub fn zero() -> (r: Self)
        ensures
            r@ == 0,
    {
        CurveStrength(0)
    }

    /// A moderate ease-out, the strength a menu pick starts with.
    pub fn default_exponential() -> (r: Self)
        ensures
            r@ == 64,
    {
        CurveStrength(64)
    }

    /// Create a validated curve strength: `None` for -128, the one `i8`
    /// outside `-127..=127`.
    pub fn new(strength: i8) -> (r: Option<Self>)
        ensures
            r is Some <==> strength >= -127,
            r matches Some(c) ==> c@ == strength,
    {
        if strength >= -127 {
            Some(CurveStrength(strength))
        } else {
            None
        }
    }

    /// Return the raw curve strength.
    pub fn as_i8(self) -> (r: i8)
        ensures
            r == self@,
            -127 <= r <= 127,
    {
        proof {
            use_type_invariant(&self);
        }
        self.0
    }
}

impl Default for CurveStrength {
    fn default() -> (r: Self)
        ensures
            r@ == 0,
    {
        CurveStrength::zero()
    }
}

/// Parameter id naming a module parameter (its descriptor's type id, e.g.
/// `"cutoff"`).
#[derive(Debug, Clone, PartialEq, Eq, Hash)]
pub struct ParamId(String);

impl View for ParamId {
    type V = Seq<char>;

    closed spec fn view(&self) -> Seq<char> {
        self.0@
    }
}

impl ParamId {
    /// Make a parameter id from its text.
    pub fn new(s: &str) -> (r: Self)
        ensures
            r@ == s@,
    {
        ParamId(s.to_owned())
    }

    /// Make a parameter id from an owned string.
    pub fn from_string(s: String) -> (r: Self)
        ensures
            r@ == s@,
    {
        ParamId(s)
    }

    /// Borrow the id as a string slice.
    pub fn as_str(&self) -> (r: &str)
        ensures
            r@ == self@,
    {
        self.0.as_str()
    }
}

/// Interpolation curve type between automation points.
#[derive(Debug, Clone, Copy, PartialEq, Eq)]
pub enum CurveType {
    /// Linear interpolation to next point.
    Linear,
    /// Step (hold value until next point).
    Step,
    /// Exponential curve (parameter indicates strength, -127 to 127).
    Exponential(CurveStrength),
    /// S-curve (smoothstep).
    SCurve,
}

/// Two curves are of the same kind (an exponential curve's strength aside).
pub open spec fn same_curve_kind(a: CurveType, b: CurveType) -> bool {
    match (a, b) {
        (CurveType::Linear, CurveType::Linear) => true,
        (CurveType::Step, CurveType::Step) => true,
        (CurveType::Exponential(_), CurveType::Exponential(_)) => true,
        (CurveType::SCurve, CurveType::SCurve) => true,
        _ => false,
    }
}

impl CurveType {
    /// Short display name for GUI labels (ignores the `Exponential` strength).
    pub fn display_name(&self) -> (s: &'static str)
        ensures
            s@ == match *self {
                CurveType::Linear => "Linear"@,
                CurveType::Step => "Step"@,
                CurveType::Exponential(_) => "Exponential"@,
                CurveType::SCurve => "S-Curve"@,
            },
    {
        match self {
            CurveType::Linear => "Linear",
            CurveType::Step => "Step",
            CurveType::Exponential(_) => "Exponential",
            CurveType::SCurve => "S-Curve",
        }
    }

    /// Representative variants for menus: linear, step, a moderate
    /// exponential, S-curve.
    pub fn menu_kinds() -> (v: Vec<CurveType>)
        ensures
            v.len() == 4,
            v[0] == CurveType::Linear,
            v[1] == CurveType::Step,
            v[2] matches CurveType::Exponential(c) && c@ == 64,
            v[3] == CurveType::SCurve,
    {
        vec![
            CurveType::Linear,
            CurveType::Step,
            CurveType::Exponential(CurveStrength::default_exponential()),
            CurveType::SCurve,
        ]
    }

    /// Same kind as `other`, ignoring the `Exponential` strength.
    pub fn same_kind(&self, other: &Self) -> (b: bool)
        ensures
            b == same_curve_kind(*self, *other),
    {
        match (self, other) {
            (CurveType::Linear, CurveType::Linear) => true,
            (CurveType::Step, CurveType::Step) => true,
            (CurveType::Exponential(_), CurveType::Exponential(_)) => true,
            (CurveType::SCurve, CurveType::SCurve) => true,
            _ => false,
        }
    }
}

impl Default for CurveType {
    fn default() -> (r: Self)
        ensures
            r == CurveType::Linear,
    {
        CurveType::Linear
    }
}

/// Automatable instrument parameters for sequencer automation lanes.
#[derive(Debug, Clone, Copy, PartialEq, Eq, Hash, Structural)]
pub enum AutoInstrumentParam {
    Volume,
    Pan,
    FilterCutoff,
    FilterResonance,
    Attack,
    Decay,
    Sustain,
    Release,
}

impl AutoInstrumentParam {
    /// Display name for GUI labels.
    pub fn display_name(&self) -> (s: &'static str)
        ensures
            s@ == match *self {
                AutoInstrumentParam::Volume => "Volume"@,
                AutoInstrumentParam::Pan => "Pan"@,
                AutoInstrumentParam::FilterCutoff => "Filter Cutoff"@,
                AutoInstrumentParam::FilterResonance => "Filter Res"@,
                AutoInstrumentParam::Attack => "Attack"@,
                AutoInstrumentParam::Decay => "Decay"@,
                AutoInstrumentParam::Sustain => "Sustain"@,
                AutoInstrumentParam::Release => "Release"@,
            },
    {
        match self {
            AutoInstrumentParam::Volume => "Volume",
            AutoInstrumentParam::Pan => "Pan",
            AutoInstrumentParam::FilterCutoff => "Filter Cutoff",
            AutoInstrumentParam::FilterResonance => "Filter Res",
            AutoInstrumentParam::Attack => "Attack",
            AutoInstrumentParam::Decay => "Decay",
            AutoInstrumentParam::Sustain => "Sustain",
            AutoInstrumentParam::Release => "Release",
        }
    }

    /// All variants, in declaration order.
    pub fn all() -> (v: Vec<AutoInstrumentParam>)
        ensures
            v@ == seq![
                AutoInstrumentParam::Volume,
                AutoInstrumentParam::Pan,
                AutoInstrumentParam::FilterCutoff,
                AutoInstrumentParam::FilterResonance,
                AutoInstrumentParam::Attack,
                AutoInstrumentParam::Decay,
                AutoInstrumentParam::Sustain,
                AutoInstrumentParam::Release,
            ],
    {
        let v = vec![
            AutoInstrumentParam::Volume,
            AutoInstrumentParam::Pan,
            AutoInstrumentParam::FilterCutoff,
            AutoInstrumentParam::FilterResonance,
            AutoInstrumentParam::Attack,
            AutoInstrumentParam::Decay,
            AutoInstrumentParam::Sustain,
            AutoInstrumentParam::Release,
        ];
        assert(v@ =~= seq![
            AutoInstrumentParam::Volume,
            AutoInstrumentParam::Pan,
            AutoInstrumentParam::FilterCutoff,
            AutoInstrumentParam::FilterResonance,
            AutoInstrumentParam::Attack,
            AutoInstrumentParam::Decay,
            AutoInstrumentParam::Sustain,
            AutoInstrumentParam::Release,
        ]);
        v
    }
}

/// Automatable track parameters.
#[derive(Debug, Clone, Copy, PartialEq, Eq, Hash, Structural)]
pub enum TrackParam {
    Volume,
    Pan,
    Mute,
    /// Continuous track-pitch offset applied to the voices on the track.
    Pitch,
}

impl TrackParam {
    /// Display name for GUI labels.
    pub fn display_name(&self) -> (s: &'static str)
        ensures
            s@ == match *self {
                TrackParam::Volume => "Volume"@,
                TrackParam::Pan => "Pan"@,
                TrackParam::Mute => "Mute"@,
                TrackParam::Pitch => "Pitch"@,
            },
    {
        match self {
            TrackParam::Volume => "Volume",
            TrackParam::Pan => "Pan",
            TrackParam::Mute => "Mute",
            TrackParam::Pitch => "Pitch",
        }
    }

    /// All variants, in declaration order.
    pub fn all() -> (v: Vec<TrackParam>)
        ensures
            v@ == seq![TrackParam::Volume, TrackParam::Pan, TrackParam::Mute, TrackParam::Pitch],
    {
        let v = vec![TrackParam::Volume, TrackParam::Pan, TrackParam::Mute, TrackParam::Pitch];
        assert(v@ =~= seq![TrackParam::Volume, TrackParam::Pan, TrackParam::Mute, TrackParam::Pitch]);
        v
    }
}

/// Automatable global parameters. (Tempo and swing alter the playback grid
/// itself and are not automation targets.)
#[derive(Debug, Clone, Copy, PartialEq, Eq, Hash, Structural)]
pub enum GlobalParam {
    MasterVolume,
}

// ----------------------------------------------------------------------------
// Lanes
// ----------------------------------------------------------------------------

/// A single automation point.
#[derive(Debug, Clone, Copy, PartialEq)]
pub struct AutomationPoint<V> {
    /// Position within the pattern.
    pub tick: PatternTick,
    /// The value at this point.
    pub value: V,
    /// Curve type for interpolation to the next point.
    pub curve: CurveType,
}

impl<V: Copy> AutomationPoint<V> {
    /// Create a new automation point with linear interpolation.
    pub fn new(tick: PatternTick, value: V) -> (r: Self)
        ensures
            r.tick == tick,
            r.value == value,
            r.curve == CurveType::Linear,
    {
        AutomationPoint { tick, value, curve: CurveType::Linear }
    }

    /// Set the curve type (builder pattern).
    pub fn with_curve(self, curve: CurveType) -> (r: Self)
        ensures
            r.tick == self.tick,
            r.value == self.value,
            r.curve == curve,
    {
        AutomationPoint { curve, ..self }
    }
}

/// Points in strictly increasing tick order.
pub open spec fn ticks_increasing<V>(ps: Seq<AutomationPoint<V>>) -> bool {
    forall|i: int, j: int| 0 <= i < j < ps.len() ==> ps[i].tick.0 < ps[j].tick.0
}

/// The number of leading points at or before `tick`.
pub open spec fn point_split<V>(ps: Seq<AutomationPoint<V>>, tick: int) -> int
    decreases ps.len(),
{
    if ps.len() == 0 {
        0
    } else if ps.last().tick.0 <= tick {
        ps.len() as int
    } else {
        point_split(ps.drop_last(), tick)
    }
}

/// In a sorted lane the split separates the points at or before `tick` from
/// the later ones.
proof fn lemma_point_split<V>(ps: Seq<AutomationPoint<V>>, tick: int)
    requires
        ticks_increasing(ps),
    ensures
        0 <= point_split(ps, tick) <= ps.len(),
        forall|k: int| 0 <= k < point_split(ps, tick) ==> (#[trigger] ps[k]).tick.0 <= tick,
        forall|k: int| point_split(ps, tick) <= k < ps.len() ==> (#[trigger] ps[k]).tick.0 > tick,
    decreases ps.len(),
{
    if ps.len() > 0 {
        let d = ps.drop_last();
        assert(ticks_increasing(d));
        lemma_point_split(d, tick);
        if ps.last().tick.0 <= tick {
            assert forall|k: int| 0 <= k < ps.len() implies (#[trigger] ps[k]).tick.0 <= tick by {
                if k < ps.len() - 1 {
                    assert(ps[k].tick.0 < ps[ps.len() - 1].tick.0);
                }
            }
        } else {
            assert forall|k: int| point_split(ps, tick) <= k < ps.len() implies (#[trigger] ps[k]).tick.0 > tick by {
                if k < ps.len() - 1 {
                    assert(ps[k] == d[k]);
                }
            }
            assert forall|k: int| 0 <= k < point_split(ps, tick) implies (#[trigger] ps[k]).tick.0 <= tick by {
                assert(ps[k] == d[k]);
            }
        }
    }
}

/// Which points decide a lane's value at a tick.
#[derive(Debug, Clone, Copy, PartialEq, Eq)]
pub enum LaneSegment {
    /// The value of point `i` holds (before the first point, after the last,
    /// or exactly on a point).
    Hold(usize),
    /// The value is interpolated from point `i` towards point `i + 1`, using
    /// point `i`'s curve.
    Between(usize),
}

/// An automation lane: a target (of type `T`) and points kept in strictly
/// increasing tick order.
#[derive(Debug)]
pub struct AutomationLane<T, V> {
    target: T,
    points: Vec<AutomationPoint<V>>,
}

/// Where `point` goes in `ps`: replacing the last point at or before its tick
/// when that point has the same tick, otherwise inserted after it.
pub open spec fn with_point<V>(ps: Seq<AutomationPoint<V>>, point: AutomationPoint<V>) -> Seq<AutomationPoint<V>> {
    let k = point_split(ps, point.tick.0 as int);
    if k > 0 && ps[k - 1].tick == point.tick {
        ps.update(k - 1, point)
    } else {
        ps.insert(k, point)
    }
}

/// `add_point` keeps the points strictly increasing by tick, holds the new
/// point, keeps every point at another tick, and grows the lane by one
/// unless a point already sat at that tick (which it replaces).
pub proof fn lemma_add_point_keeps_order<V>(ps: Seq<AutomationPoint<V>>, point: AutomationPoint<V>)
    requires
        ticks_increasing(ps),
    ensures
        ticks_increasing(with_point(ps, point)),
        with_point(ps, point).contains(point),
        forall|k: int| 0 <= k < ps.len() && (#[trigger] ps[k]).tick != point.tick ==> with_point(ps, point).contains(ps[k]),
        with_point(ps, point).len() == ps.len() + (if exists|k: int| 0 <= k < ps.len() && (#[trigger] ps[k]).tick == point.tick {
            0int
        } else {
            1int
        }),
{
    lemma_point_split(ps, point.tick.0 as int);
    let k = point_split(ps, point.tick.0 as int);
    let t = with_point(ps, point);
    if k > 0 && ps[k - 1].tick == point.tick {
        assert(t[k - 1] == point);
        assert forall|a: int| 0 <= a < ps.len() && (#[trigger] ps[a]).tick != point.tick implies t.contains(ps[a]) by {
            assert(a != k - 1);
            assert(t[a] == ps[a]);
        }
    } else {
        assert(t == ps.insert(k, point));
        assert(t[k] == point);
        assert forall|a: int| 0 <= a < ps.len() && (#[trigger] ps[a]).tick != point.tick implies t.contains(ps[a]) by {
            if a < k {
                assert(t[a] == ps[a]);
            } else {
                assert(t[a + 1] == ps[a]);
            }
        }
        assert forall|i: int, j: int| 0 <= i < j < t.len() implies t[i].tick.0 < t[j].tick.0 by {
            if j < k {
                assert(t[i] == ps[i] && t[j] == ps[j]);
            } else if j == k {
                assert(t[i] == ps[i]);
                if i == k - 1 {
                    assert(ps[k - 1].tick.0 <= point.tick.0);
                }
            } else if i < k {
                assert(t[i] == ps[i] && t[j] == ps[j - 1]);
            } else if i == k {
                assert(t[j] == ps[j - 1]);
            } else {
                assert(t[i] == ps[i - 1] && t[j] == ps[j - 1]);
            }
        }
        assert(!exists|a: int| 0 <= a < ps.len() && (#[trigger] ps[a]).tick == point.tick) by {
            if exists|a: int| 0 <= a < ps.len() && (#[trigger] ps[a]).tick == point.tick {
                let a = choose|a: int| 0 <= a < ps.len() && (#[trigger] ps[a]).tick == point.tick;
                if a < k - 1 {
                    assert(ps[a].tick.0 < ps[k - 1].tick.0);
                }
            }
        }
    }
}

/// Removing the point `add_point` just added at a fresh tick undoes the add:
/// the only point at that tick is the added one, and removing it gives the
/// lane's points back.
pub proof fn lemma_add_then_remove_point_restores<V>(ps: Seq<AutomationPoint<V>>, point: AutomationPoint<V>, i: int)
    requires
        ticks_increasing(ps),
        forall|k: int| 0 <= k < ps.len() ==> (#[trigger] ps[k]).tick != point.tick,
        0 <= i < with_point(ps, point).len(),
        with_point(ps, point)[i].tick == point.tick,
    ensures
        with_point(ps, point).remove(i) == ps,
{
    lemma_point_split(ps, point.tick.0 as int);
    let k = point_split(ps, point.tick.0 as int);
    if k > 0 {
        assert(ps[k - 1].tick != point.tick);
    }
    let t = with_point(ps, point);
    assert(t == ps.insert(k, point));
    if i < k {
        assert(t[i] == ps[i]);
    } else if i > k {
        assert(t[i] == ps[i - 1]);
    }
    assert(i == k);
    assert(t.remove(k) =~= ps);
}

/// The segment deciding the value at `tick`: none for an empty lane; the
/// first point before it, the last after it; otherwise the point at or before
/// `tick` and its successor (held when `tick` is exactly on it).
pub open spec fn segment_of<V>(ps: Seq<AutomationPoint<V>>, tick: int) -> Option<LaneSegment> {
    let k = point_split(ps, tick);
    if ps.len() == 0 {
        None
    } else if k == 0 {
        Some(LaneSegment::Hold(0))
    } else if k >= ps.len() {
        Some(LaneSegment::Hold((ps.len() - 1) as usize))
    } else if ps[k].tick == ps[k - 1].tick {
        Some(LaneSegment::Hold((k - 1) as usize))
    } else {
        Some(LaneSegment::Between((k - 1) as usize))
    }
}

impl<T, V> AutomationLane<T, V> {
    /// The points, in tick order.
    pub closed spec fn spec_points(&self) -> Seq<AutomationPoint<V>> {
        self.points@
    }

    /// The automated parameter.
    pub closed spec fn spec_target(&self) -> T {
        self.target
    }

    #[verifier::type_invariant]
    spec fn inv(self) -> bool {
        ticks_increasing(self.points@)
    }
}

impl<T, V: Copy> AutomationLane<T, V> {

    /// Create a new empty automation lane.
    pub fn new(target: T) -> (r: Self)
        ensures
            r.spec_target() == target,
            r.spec_points().len() == 0,
    {
        AutomationLane { target, points: Vec::new() }
    }

    /// The automated parameter.
    pub fn target(&self) -> (r: &T)
        ensures
            *r == self.spec_target(),
    {
        &self.target
    }

    /// Every lane keeps its points in strictly increasing tick order.
    pub fn check_order(&self)
        ensures
            ticks_increasing(self.spec_points()),
    {
        proof {
            use_type_invariant(self);
        }
    }

    fn split(&self, tick: PatternTick) -> (r: usize)
        ensures
            r == point_split(self.spec_points(), tick.0 as int),
            r <= self.spec_points().len(),
    {
        let mut pos: usize = self.points.len();
        proof {
            assert(self.points@.subrange(0, self.points@.len() as int) =~= self.points@);
        }
        while pos > 0
            invariant
                pos <= self.points@.len(),
                point_split(self.points@, tick.0 as int) == point_split(self.points@.subrange(0, pos as int), tick.0 as int),
            ensures
                pos <= self.points@.len(),
                point_split(self.points@, tick.0 as int) == point_split(self.points@.subrange(0, pos as int), tick.0 as int),
                pos > 0 ==> self.points@[pos - 1].tick.0 <= tick.0,
            decreases pos,
        {
            if self.points[pos - 1].tick.0 <= tick.0 {
                break;
            }
            proof {
                let sub = self.points@.subrange(0, pos as int);
                assert(sub.drop_last() =~= self.points@.subrange(0, pos - 1));
            }
            pos = pos - 1;
        }
        proof {
            let sub = self.points@.subrange(0, pos as int);
            if pos > 0 {
                assert(sub.last() == self.points@[pos - 1]);
            }
        }
        pos
    }

    /// Add a point in tick order, replacing any point at the same tick.
    pub fn add_point(&mut self, point: AutomationPoint<V>)
        ensures
            final(self).spec_points() == with_point(old(self).spec_points(), point),
            final(self).spec_target() == old(self).spec_target(),
    {
        proof {
            use_type_invariant(&*self);
            lemma_point_split(self.points@, point.tick.0 as int);
        }
        let pos = self.split(point.tick);
        let mut points: Vec<AutomationPoint<V>> = Vec::new();
        std::mem::swap(&mut points, &mut self.points);
        let ghost ps = points@;
        if pos > 0 && points[pos - 1].tick.0 == point.tick.0 {
            points.set(pos - 1, point);
            proof {
                assert forall|i: int, j: int| 0 <= i < j < points@.len() implies points@[i].tick.0 < points@[j].tick.0 by {
                    if i == pos - 1 {
                        assert(ps[j].tick.0 > ps[i].tick.0);
                    } else if j == pos - 1 {
                        assert(ps[j].tick.0 > ps[i].tick.0);
                    }
                }
            }
        } else {
            points.insert(pos, point);
            proof {
                assert forall|i: int, j: int| 0 <= i < j < points@.len() implies points@[i].tick.0 < points@[j].tick.0 by {
                    if i < pos && j > pos {
                        assert(points@[i] == ps[i]);
                        assert(points@[j] == ps[j - 1]);
                    } else if i < pos && j < pos {
                        assert(points@[i] == ps[i] && points@[j] == ps[j]);
                    } else if i == pos {
                        assert(points@[j] == ps[j - 1]);
                    } else if j == pos {
                        assert(points@[i] == ps[i]);
                        if i < pos - 1 {
                            assert(ps[i].tick.0 < ps[pos - 1].tick.0);
                        }
                    } else {
                        assert(points@[i] == ps[i - 1] && points@[j] == ps[j - 1]);
                    }
                }
            }
        }
        self.points = points;
    }

    /// Remove the point at `tick`, if any.
    pub fn remove_point(&mut self, tick: PatternTick) -> (r: Option<AutomationPoint<V>>)
        ensures
            match r {
                Some(p) => exists|i: int| 0 <= i < old(self).spec_points().len() && old(self).spec_points()[i] == p
                    && p.tick == tick && final(self).spec_points() == old(self).spec_points().remove(i),
                None => (forall|i: int| 0 <= i < old(self).spec_points().len() ==> (#[trigger] old(self).spec_points()[i]).tick != tick)
                    && final(self).spec_points() == old(self).spec_points(),
            },
            final(self).spec_target() == old(self).spec_target(),
    {
        proof {
            use_type_invariant(&*self);
        }
        let mut i: usize = 0;
        while i < self.points.len()
            invariant
                i <= self.points@.len(),
                self.spec_points() == old(self).spec_points(),
                self.spec_target() == old(self).spec_target(),
                ticks_increasing(self.spec_points()),
                forall|k: int| 0 <= k < i ==> (#[trigger] self.points@[k]).tick != tick,
            decreases self.points@.len() - i,
        {
            if self.points[i].tick.0 == tick.0 {
                let mut points: Vec<AutomationPoint<V>> = Vec::new();
                std::mem::swap(&mut points, &mut self.points);
                let ghost ps = points@;
                let removed = points.remove(i);
                proof {
                    assert forall|a: int, b: int| 0 <= a < b < points@.len() implies points@[a].tick.0 < points@[b].tick.0 by {
                        let a2 = if a < i { a } else { a + 1 };
                        let b2 = if b < i { b } else { b + 1 };
                        assert(points@[a] == ps[a2] && points@[b] == ps[b2]);
                    }
                }
                self.points = points;
                assert(old(self).spec_points()[i as int] == removed);
                return Some(removed);
            }
            i = i + 1;
        }
        None
    }

    /// All points, in tick order.
    pub fn points(&self) -> (r: &[AutomationPoint<V>])
        ensures
            r@ == self.spec_points(),
            ticks_increasing(r@),
    {
        proof {
            use_type_invariant(self);
        }
        self.points.as_slice()
    }

    /// Which points decide the value at `tick` (see [`segment_of`]).
    pub fn segment_at(&self, tick: PatternTick) -> (r: Option<LaneSegment>)
        ensures
            r == segment_of(self.spec_points(), tick.0 as int),
    {
        if self.points.len() == 0 {
            return None;
        }
        let k = self.split(tick);
        if k == 0 {
            Some(LaneSegment::Hold(0))
        } else if k >= self.points.len() {
            Some(LaneSegment::Hold(self.points.len() - 1))
        } else if self.points[k].tick.0 == self.points[k - 1].tick.0 {
            Some(LaneSegment::Hold(k - 1))
        } else {
            Some(LaneSegment::Between(k - 1))
        }
    }

    /// Whether the lane has no points.
    pub fn is_empty(&self) -> (r: bool)
        ensures
            r == (self.spec_points().len() == 0),
    {
        self.points.len() == 0
    }

    /// The number of points.
    pub fn len(&self) -> (r: usize)
        ensures
            r == self.spec_points().len(),
    {
        self.points.len()
    }

    /// Remove every point.
    pub fn clear(&mut self)
        ensures
            final(self).spec_points().len() == 0,
            final(self).spec_target() == old(self).spec_target(),
    {
        self.points = Vec::new();
    }
}

impl<T: Clone, V: Copy> Clone for AutomationLane<T, V> {
    /// A copy with the same points (the target is cloned).
    fn clone(&self) -> (r: Self)
        ensures
            r.spec_points() == self.spec_points(),
    {
        proof {
            use_type_invariant(self);
        }
        let mut points: Vec<AutomationPoint<V>> = Vec::new();
        let mut i: usize = 0;
        while i < self.points.len()
            invariant
                i <= self.points@.len(),
                points@ == self.points@.subrange(0, i as int),
                ticks_increasing(self.points@),
            decreases self.points@.len() - i,
        {
            points.push(self.points[i]);
            proof {
                assert(points@ =~= self.points@.subrange(0, i + 1));
            }
            i = i + 1;
        }
        proof {
            assert(points@ =~= self.points@);
        }
        AutomationLane { target: self.target.clone(), points }
    }
}

/// A lane's value at a tick comes from a point at or before it whenever one
/// exists: the segment never looks past `tick` for the point it starts from,
/// and an interpolating segment lies strictly around `tick`.
pub proof fn lemma_segment_brackets_tick<V>(ps: Seq<AutomationPoint<V>>, tick: int)
    requires
        ticks_increasing(ps),
        ps.len() <= usize::MAX,
    ensures
        segment_of(ps, tick) matches Some(LaneSegment::Between(i)) ==> ps[i as int].tick.0 <= tick < ps[i + 1].tick.0,
        segment_of(ps, tick) matches Some(LaneSegment::Hold(i)) ==> (i as int) < ps.len(),
{
    lemma_point_split(ps, tick);
    let k = point_split(ps, tick);
    if 0 < k < ps.len() {
        assert(ps[k - 1].tick.0 <= tick);
        assert(ps[k].tick.0 > tick);
    }
}

/// Which segment decides a lane's value, by where `tick` falls among the
/// point ticks: an empty lane has none; before the first point the first
/// point's value holds; at or after the last point the last point's value
/// holds; between two adjacent points `i` and `i + 1` (from `i`'s tick up to
/// but excluding `i + 1`'s) the lane runs from point `i` to point `i + 1`.
pub proof fn lemma_segment_by_position<V>(ps: Seq<AutomationPoint<V>>, tick: int)
    requires
        ticks_increasing(ps),
        ps.len() <= usize::MAX,
    ensures
        ps.len() == 0 ==> segment_of(ps, tick) is None,
        ps.len() > 0 && tick < ps[0].tick.0 ==> segment_of(ps, tick) == Some(LaneSegment::Hold(0)),
        ps.len() > 0 && ps.last().tick.0 <= tick ==> segment_of(ps, tick) == Some(
            LaneSegment::Hold((ps.len() - 1) as usize),
        ),
        forall|i: int|
            0 <= i < ps.len() - 1 && (#[trigger] ps[i]).tick.0 <= tick < ps[i + 1].tick.0 ==> segment_of(ps, tick)
                == Some(LaneSegment::Between(i as usize)),
{
    lemma_point_split(ps, tick);
    let k = point_split(ps, tick);
    if ps.len() > 0 && tick < ps[0].tick.0 {
        if k > 0 {
            assert(ps[0].tick.0 <= tick);
        }
    }
    if ps.len() > 0 && ps.last().tick.0 <= tick {
        if k < ps.len() {
            assert(ps[ps.len() - 1].tick.0 > tick);
        }
    }
    assert forall|i: int|
        0 <= i < ps.len() - 1 && (#[trigger] ps[i]).tick.0 <= tick < ps[i + 1].tick.0 implies segment_of(ps, tick)
            == Some(LaneSegment::Between(i as usize)) by {
        if k <= i {
            assert(ps[i].tick.0 > tick);
        }
        if k > i + 1 {
            assert(ps[i + 1].tick.0 <= tick);
        }
        assert(k == i + 1);
        assert(ps[k].tick.0 != ps[k - 1].tick.0);
    }
}

/// Adding a point and reading the lane at its tick finds it: the segment
/// there starts at the added point.
pub proof fn lemma_added_point_is_read_back<V>(ps: Seq<AutomationPoint<V>>, point: AutomationPoint<V>)
    requires
        ticks_increasing(ps),
    ensures
        ({
            let qs = with_point(ps, point);
            let k = point_split(ps, point.tick.0 as int);
            let at = if k > 0 && ps[k - 1].tick == point.tick { k - 1 } else { k };
            &&& qs[at] == point
            &&& (segment_of(qs, point.tick.0 as int) == Some(LaneSegment::Hold(at as usize))
                || segment_of(qs, point.tick.0 as int) == Some(LaneSegment::Between(at as usize)))
        }),
{
    let t = point.tick.0 as int;
    lemma_point_split(ps, t);
    let k = point_split(ps, t);
    let qs = with_point(ps, point);
    let at = if k > 0 && ps[k - 1].tick == point.tick { k - 1 } else { k };
    assert(ticks_increasing(qs)) by {
        assert forall|i: int, j: int| 0 <= i < j < qs.len() implies qs[i].tick.0 < qs[j].tick.0 by {
            if k > 0 && ps[k - 1].tick == point.tick {
                if i == k - 1 {
                    assert(qs[j] == ps[j]);
                } else if j == k - 1 {
                    assert(qs[i] == ps[i]);
                } else {
                    assert(qs[i] == ps[i] && qs[j] == ps[j]);
                }
            } else {
                if i < k && j > k {
                    assert(qs[i] == ps[i] && qs[j] == ps[j - 1]);
                } else if i < k && j < k {
                    assert(qs[i] == ps[i] && qs[j] == ps[j]);
                } else if i == k {
                    assert(qs[j] == ps[j - 1]);
                } else if j == k {
                    assert(qs[i] == ps[i]);
                    if k > 0 && i < k - 1 {
                        assert(ps[i].tick.0 < ps[k - 1].tick.0);
                    }
                } else {
                    assert(qs[i] == ps[i - 1] && qs[j] == ps[j - 1]);
                }
            }
        }
    }
    lemma_point_split(qs, t);
    let kq = point_split(qs, t);
    assert(qs[at] == point);
    assert(kq == at + 1) by {
        assert(qs[at].tick.0 <= t);
        if at + 1 < qs.len() {
            if k > 0 && ps[k - 1].tick == point.tick {
                assert(qs[at + 1] == ps[at + 1]);
            } else {
                assert(qs[at + 1] == ps[at]);
            }
            assert(qs[at + 1].tick.0 > t);
        }
    }
}

} // verus!
