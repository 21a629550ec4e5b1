use synth_sequencer::note_graph::{NoteDelay, Ratchet};
use synth_sequencer::time::{Duration, PatternTick};
use synth_sequencer::timing::{echo_ticks, probe_ticks, ratchet_dry_duration, retrigger_duration, retrigger_ticks};

fn ticks(v: Vec<PatternTick>) -> Vec<u32> {
    v.into_iter().map(|t| t.0).collect()
}

#[test]
fn delay_probes_each_echo_nearest_first() {
    let d = NoteDelay { delay_ticks: Duration(480), repeats: 3 };
    assert_eq!(ticks(echo_ticks(&d, PatternTick(2000), 16)), vec![1520, 1040, 560]);
    // Only the audible echoes are probed.
    assert_eq!(ticks(echo_ticks(&d, PatternTick(2000), 1)), vec![1520]);
    // Nothing before the pattern start.
    assert_eq!(ticks(echo_ticks(&d, PatternTick(500), 16)), vec![20]);
    // No spacing, no echoes.
    let flat = NoteDelay { delay_ticks: Duration(0), repeats: 3 };
    assert!(echo_ticks(&flat, PatternTick(2000), 16).is_empty());
}

#[test]
fn delay_repeats_clamp_and_window_bound() {
    let d = NoteDelay { delay_ticks: Duration(1000), repeats: 200 };
    // 16 repeats at most, and nothing further back than 7680 ticks.
    assert_eq!(echo_ticks(&d, PatternTick(100_000), 100).len(), 7);
    let far = NoteDelay { delay_ticks: Duration(8000), repeats: 3 };
    assert!(echo_ticks(&far, PatternTick(100_000), 100).is_empty());
    assert_eq!(ticks(probe_ticks(PatternTick(10), 3, 10)), vec![7, 4, 1]);
}

#[test]
fn ratchet_retrigger_ticks_and_durations() {
    let r = Ratchet { sub_ticks: Duration(60), count: 4 };
    assert_eq!(ticks(retrigger_ticks(&r, PatternTick(1000), 16)), vec![940, 880, 820]);
    // A single hit does not subdivide.
    let one = Ratchet { sub_ticks: Duration(60), count: 1 };
    assert!(retrigger_ticks(&one, PatternTick(1000), 16).is_empty());
    assert_eq!(ratchet_dry_duration(&one, Some(Duration(480))), Some(Duration(480)));
    // The dry onset is cut to one subdivision.
    assert_eq!(ratchet_dry_duration(&r, Some(Duration(480))), Some(Duration(60)));
    assert_eq!(ratchet_dry_duration(&r, None), Some(Duration(60)));
    assert_eq!(ratchet_dry_duration(&r, Some(Duration(30))), Some(Duration(30)));
    // A retrigger past the note's end is dropped; the last one is clipped.
    assert_eq!(retrigger_duration(&r, Some(Duration(150)), 120), Some(Duration(30)));
    assert_eq!(retrigger_duration(&r, Some(Duration(150)), 180), None);
    assert_eq!(retrigger_duration(&r, Some(Duration(480)), 60), Some(Duration(60)));
    assert_eq!(retrigger_duration(&r, None, 60), Some(Duration(60)));
}
