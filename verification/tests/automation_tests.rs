use synth_sequencer::automation::{AutoInstrumentParam, CurveStrength, CurveType, ParamId, TrackParam};

#[test]
fn curve_strength_rejects_negative_128() {
    assert!(CurveStrength::new(-128).is_none());
    assert_eq!(CurveStrength::new(-127).unwrap().as_i8(), -127);
    assert_eq!(CurveStrength::new(127).unwrap().as_i8(), 127);
    assert_eq!(CurveStrength::default().as_i8(), 0);
}

#[test]
fn curve_kinds_ignore_strength() {
    let a = CurveType::Exponential(CurveStrength::new(10).unwrap());
    let b = CurveType::Exponential(CurveStrength::new(-50).unwrap());
    assert!(a.same_kind(&b));
    assert!(!a.same_kind(&CurveType::Linear));
    assert_eq!(a.display_name(), "Exponential");
    assert_eq!(CurveType::SCurve.display_name(), "S-Curve");
    let menu = CurveType::menu_kinds();
    assert_eq!(menu.len(), 4);
    assert_eq!(menu[2], CurveType::Exponential(CurveStrength::default_exponential()));
}

#[test]
fn parameter_names() {
    assert_eq!(AutoInstrumentParam::FilterResonance.display_name(), "Filter Res");
    assert_eq!(AutoInstrumentParam::all().len(), 8);
    assert_eq!(TrackParam::Pitch.display_name(), "Pitch");
    assert_eq!(TrackParam::all(), vec![TrackParam::Volume, TrackParam::Pan, TrackParam::Mute, TrackParam::Pitch]);
    assert_eq!(ParamId::new("cutoff").as_str(), "cutoff");
    assert_eq!(ParamId::from_string("res".to_string()).as_str(), "res");
}

use synth_sequencer::automation::{AutomationLane, AutomationPoint, LaneSegment};
use synth_sequencer::time::PatternTick;

/// A lane value by linear interpolation between the points the lane picks.
fn linear_value(lane: &AutomationLane<&'static str, f32>, tick: u32) -> Option<f32> {
    let pts = lane.points();
    match lane.segment_at(PatternTick(tick))? {
        LaneSegment::Hold(i) => Some(pts[i].value),
        LaneSegment::Between(i) => {
            let (a, b) = (pts[i], pts[i + 1]);
            let t = (tick - a.tick.0) as f32 / (b.tick.0 - a.tick.0) as f32;
            Some(a.value + (b.value - a.value) * t)
        },
    }
}

#[test]
fn test_automation_point_creation() {
    let point = AutomationPoint::new(PatternTick(480), 0.5f32);
    assert_eq!(point.tick.0, 480);
    assert_eq!(point.value, 0.5);
    assert!(matches!(point.curve, synth_sequencer::automation::CurveType::Linear));
}

#[test]
fn test_automation_lane_value_at() {
    let mut lane = AutomationLane::new("master volume");
    lane.add_point(AutomationPoint::new(PatternTick(0), 0.0f32));
    lane.add_point(AutomationPoint::new(PatternTick(960), 1.0f32));
    assert_eq!(linear_value(&lane, 0), Some(0.0));
    assert!((linear_value(&lane, 480).unwrap() - 0.5).abs() < 0.01);
    assert!((linear_value(&lane, 960).unwrap() - 1.0).abs() < 0.01);
    assert_eq!(linear_value(&lane, 2000), Some(1.0));
    assert_eq!(lane.segment_at(PatternTick(480)), Some(LaneSegment::Between(0)));
    assert_eq!(lane.segment_at(PatternTick(960)), Some(LaneSegment::Hold(1)));
}

#[test]
fn test_automation_lane_add_remove() {
    let mut lane = AutomationLane::new("master volume");
    lane.add_point(AutomationPoint::new(PatternTick(100), 0.5f32));
    lane.add_point(AutomationPoint::new(PatternTick(50), 0.3f32));
    lane.add_point(AutomationPoint::new(PatternTick(200), 0.8f32));
    assert_eq!(lane.len(), 3);
    assert_eq!(lane.points()[0].tick.0, 50);
    assert_eq!(lane.points()[1].tick.0, 100);
    let removed = lane.remove_point(PatternTick(100));
    assert!(removed.is_some());
    assert_eq!(lane.len(), 2);
    assert!(lane.remove_point(PatternTick(100)).is_none());
}

#[test]
fn test_automation_lane_replace_at_same_tick() {
    let mut lane = AutomationLane::new("master volume");
    lane.add_point(AutomationPoint::new(PatternTick(100), 0.5f32));
    lane.add_point(AutomationPoint::new(PatternTick(100), 0.8f32));
    assert_eq!(lane.len(), 1);
    assert_eq!(lane.points()[0].value, 0.8);
}

#[test]
fn empty_lane_has_no_segment_and_clears() {
    let mut lane: AutomationLane<&'static str, f32> = AutomationLane::new("pan");
    assert!(lane.is_empty());
    assert_eq!(lane.segment_at(PatternTick(10)), None);
    lane.add_point(AutomationPoint::new(PatternTick(10), 0.2f32));
    assert_eq!(lane.segment_at(PatternTick(0)), Some(LaneSegment::Hold(0)));
    let copy = lane.clone();
    lane.clear();
    assert!(lane.is_empty());
    assert_eq!(copy.len(), 1);
    assert_eq!(*copy.target(), "pan");
}

#[test]
fn add_then_remove_point_restores_the_lane() {
    let mut lane = AutomationLane::new("cutoff");
    lane.add_point(AutomationPoint::new(PatternTick(0), 0.1f32));
    lane.add_point(AutomationPoint::new(PatternTick(960), 0.9f32));
    let before: Vec<(u32, f32)> = lane.points().iter().map(|p| (p.tick.0, p.value)).collect();
    lane.add_point(AutomationPoint::new(PatternTick(480), 0.5f32));
    assert!(lane.remove_point(PatternTick(480)).is_some());
    let after: Vec<(u32, f32)> = lane.points().iter().map(|p| (p.tick.0, p.value)).collect();
    assert_eq!(before, after);
}

#[test]
fn add_point_keeps_ticks_strictly_increasing() {
    let mut lane = AutomationLane::new("cutoff");
    for (t, v) in [(300u32, 0.1f32), (0, 0.2), (150, 0.3), (300, 0.4), (75, 0.5), (0, 0.6)] {
        lane.add_point(AutomationPoint::new(PatternTick(t), v));
    }
    let ticks: Vec<u32> = lane.points().iter().map(|p| p.tick.0).collect();
    assert_eq!(ticks, vec![0, 75, 150, 300]);
    let values: Vec<f32> = lane.points().iter().map(|p| p.value).collect();
    assert_eq!(values, vec![0.6, 0.5, 0.3, 0.4]);
}
