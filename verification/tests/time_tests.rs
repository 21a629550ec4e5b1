use synth_sequencer::time::{Duration, PatternTick, Tick, TimeSignature, TICKS_PER_QUARTER};

#[test]
fn test_bar_beat_tick_conversion() {
    let time_sig = TimeSignature::common();
    let tick = Tick::from_bar_beat_tick(1, 2, 480, time_sig);
    let (bar, beat, t) = tick.to_bar_beat_tick(time_sig);
    assert_eq!((bar, beat, t), (1, 2, 480));
}

#[test]
fn test_time_signature_ticks_per_bar() {
    assert_eq!(TimeSignature::common().ticks_per_bar(), 3840);
    assert_eq!(TimeSignature::waltz().ticks_per_bar(), 2880);
}

#[test]
fn test_duration_constants() {
    assert_eq!(Duration::quarter().0, TICKS_PER_QUARTER);
    assert_eq!(Duration::half().0, TICKS_PER_QUARTER * 2);
    assert_eq!(Duration::whole().0, TICKS_PER_QUARTER * 4);
}

#[test]
fn test_dotted_duration() {
    let dotted_quarter = Duration::quarter().dotted();
    assert_eq!(dotted_quarter.0, 1440); // 960 + 480
}

#[test]
fn test_pattern_tick_sub_returns_duration() {
    let a = PatternTick(1000);
    let b = PatternTick(400);
    let d: Duration = a - b;
    assert_eq!(d.0, 600);
}

#[test]
fn test_pattern_tick_sub_saturates() {
    let a = PatternTick(100);
    let b = PatternTick(500);
    let d: Duration = a - b;
    assert_eq!(d.0, 0);
}

#[test]
fn test_duration_as_pattern_tick() {
    let d = Duration::quarter();
    let pt = d.as_pattern_tick();
    assert_eq!(pt.0, 960);
}

#[test]
fn bar_beat_tick_round_trips_in_six_eight() {
    let sig = TimeSignature::six_eight();
    assert_eq!(sig.ticks_per_beat(), 480);
    assert_eq!(sig.ticks_per_bar(), 2880);
    let t = Tick(2 * 2880 + 3 * 480 + 17);
    let (bar, beat, tick) = t.to_bar_beat_tick(sig);
    assert_eq!((bar, beat, tick), (2, 3, 17));
    assert_eq!(Tick::from_bar_beat_tick(bar, beat, tick, sig), t);
}

#[test]
fn tick_arithmetic() {
    assert_eq!((Tick(5) + Tick(7)).0, 12);
    assert_eq!((Tick(5) - Tick(7)).0, 0);
    assert_eq!((PatternTick(10) + Duration(5)).0, 15);
    assert_eq!((Duration(300) * 3).0, 900);
    assert_eq!(Tick::from_pattern_tick(Tick(1000), PatternTick(24)).0, 1024);
}
