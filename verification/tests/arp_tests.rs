use synth_sequencer::arp::{expand_held_pitch, splitmix64, upstream_pitch, ArpConfig, HeldStage};
use synth_sequencer::ids::PatternId;
use synth_sequencer::note::Note;
use synth_sequencer::note_processor::{
    ArpMode, ArpOffsets, ArpRate, Chord, PitchClass, ScaleMask, ScaleQuantize, StrumDirection,
};
use synth_sequencer::ornament::{source_walk_end, OrnamentFigure};
use synth_sequencer::note::OrnamentPlacement;
use synth_sequencer::pattern::Pattern;
use synth_sequencer::pitch::{Pitch, Velocity};
use synth_sequencer::time::{Duration, PatternTick};

fn c_major() -> ScaleQuantize {
    ScaleQuantize { root: PitchClass::new(0), mask: ScaleMask::major() }
}

/// Notes of `midis` all starting at `start`, each held `hold` ticks.
fn held(midis: &[u8], start: u32, hold: u32) -> Vec<Note> {
    let mut p = Pattern::new(PatternId(0), Duration(3840));
    for &m in midis {
        let id = p.add_note(PatternTick(start), Pitch::new(m).unwrap(), Velocity::mf());
        let _ = p.resize_note(id, Duration(hold));
    }
    p.notes().to_vec()
}

fn arp(mode: ArpMode, octaves: u8) -> ArpConfig {
    ArpConfig { mode, octaves, ..ArpConfig::default() }
}

/// Run an arpeggiator over `ticks` ticks (gate 0.75, no swing unless given)
/// and collect (tick, midi) of every step it sounds.
fn walk_arp(notes: &[Note], upstream: &[HeldStage], cfg: ArpConfig, swing: f32, ticks: u32) -> Vec<(u32, u8)> {
    let step_len = cfg.rate.ticks().0;
    let swing_ticks = (step_len as f32 / 2.0 * swing) as u32;
    let gated = (step_len as f32 * 0.75) as u32;
    let mut out = Vec::new();
    for t in 0..ticks {
        let tick = PatternTick(t);
        if let Some((source_tick, anchor)) = cfg.chord_source(notes, tick) {
            let phase = cfg.phase_anchor(anchor);
            if let Some((step, _duration)) = cfg.step_onset(phase, tick, swing_ticks, gated) {
                for h in cfg.emit(notes, source_tick, anchor, upstream, step, 0) {
                    out.push((t, h.pitch.as_midi()));
                }
            }
        }
    }
    out
}

fn pitches(v: &[(u32, u8)]) -> Vec<u8> {
    v.iter().map(|(_, m)| *m).collect()
}

#[test]
fn arp_up_emits_ascending_cycle_on_step_grid() {
    let notes = held(&[60, 64, 67], 0, 3840);
    let got = walk_arp(&notes, &[], arp(ArpMode::Up, 1), 0.0, 960);
    assert_eq!(got, vec![(0, 60), (240, 64), (480, 67), (720, 60)]);
}

#[test]
fn arp_continuous_phase_advances_across_short_notes() {
    let mut notes = held(&[60], 0, 120);
    notes.extend(held(&[60], 240, 120));
    let cfg = ArpConfig {
        mode: ArpMode::Custom,
        continuous_phase: true,
        custom: ArpOffsets::new(&[0, 4, 7]),
        ..ArpConfig::default()
    };
    assert_eq!(walk_arp(&notes, &[], cfg, 0.0, 480), vec![(0, 60), (240, 64)]);
}

#[test]
fn arp_rate_ticks_subdivides_below_floor() {
    assert_eq!(ArpRate::Ticks(40).ticks(), Duration(40));
    assert_eq!(ArpRate::Ticks(0).ticks(), Duration(1));
    let notes = held(&[60], 0, 480);
    let cfg = ArpConfig { rate: ArpRate::Ticks(40), ..arp(ArpMode::Up, 1) };
    let onsets: Vec<u32> = walk_arp(&notes, &[], cfg, 0.0, 200).iter().map(|(t, _)| *t).collect();
    assert_eq!(onsets, vec![0, 40, 80, 120, 160]);
}

#[test]
fn arp_custom_cycles_offsets() {
    let notes = held(&[60], 0, 480);
    let cfg = ArpConfig { rate: ArpRate::Ticks(40), custom: ArpOffsets::new(&[0, 4, 7]), ..arp(ArpMode::Custom, 1) };
    assert_eq!(pitches(&walk_arp(&notes, &[], cfg, 0.0, 200)), vec![60, 64, 67, 60, 64]);
}

#[test]
fn arp_custom_octaves_multiply_the_cycle() {
    let notes = held(&[60], 0, 480);
    let cfg = ArpConfig { rate: ArpRate::Ticks(40), custom: ArpOffsets::new(&[0, 4, 7]), ..arp(ArpMode::Custom, 2) };
    assert_eq!(pitches(&walk_arp(&notes, &[], cfg, 0.0, 240)), vec![60, 64, 67, 72, 76, 79]);
}

#[test]
fn arp_custom_tracks_moving_note() {
    let mut notes = held(&[60], 0, 120);
    notes.extend(held(&[62], 120, 120));
    let cfg = ArpConfig { rate: ArpRate::Ticks(40), custom: ArpOffsets::new(&[0, 4, 7]), ..arp(ArpMode::Custom, 1) };
    assert_eq!(pitches(&walk_arp(&notes, &[], cfg, 0.0, 240)), vec![60, 64, 67, 62, 66, 69]);
}

#[test]
fn arp_custom_root_seen_through_upstream_quantize() {
    let notes = held(&[61], 0, 480);
    let cfg = ArpConfig { rate: ArpRate::Ticks(40), custom: ArpOffsets::new(&[0, 7]), ..arp(ArpMode::Custom, 1) };
    let upstream = [HeldStage::Quantize(c_major())];
    assert_eq!(pitches(&walk_arp(&notes, &upstream, cfg, 0.0, 80)), vec![62, 69]);
}

#[test]
fn arp_custom_empty_cycle_emits_nothing() {
    let notes = held(&[60], 0, 480);
    let cfg = ArpConfig { rate: ArpRate::Ticks(40), ..arp(ArpMode::Custom, 1) };
    assert!(walk_arp(&notes, &[], cfg, 0.0, 200).is_empty());
}

#[test]
fn arp_down_and_octave_range() {
    let notes = held(&[60, 64, 67], 0, 3840);
    let got = walk_arp(&notes, &[], arp(ArpMode::Down, 2), 0.0, 1440);
    assert_eq!(pitches(&got), vec![67, 64, 60, 79, 76, 72]);
}

#[test]
fn arp_updown_does_not_repeat_endpoints() {
    let notes = held(&[60, 64, 67], 0, 3840);
    let got = walk_arp(&notes, &[], arp(ArpMode::UpDown, 1), 0.0, 1920);
    assert_eq!(pitches(&got), vec![60, 64, 67, 64, 60, 64, 67, 64]);
}

#[test]
fn arp_swing_delays_odd_steps() {
    let notes = held(&[60, 64, 67], 0, 3840);
    let ticks: Vec<u32> = walk_arp(&notes, &[], arp(ArpMode::Up, 1), 0.5, 960).iter().map(|(t, _)| *t).collect();
    assert_eq!(ticks, vec![0, 300, 480, 780]);
}

#[test]
fn arp_latch_holds_last_chord_through_gap() {
    let notes = held(&[60, 64, 67], 0, 480);
    let latched = ArpConfig { latch: true, ..arp(ArpMode::Up, 1) };
    assert_eq!(
        walk_arp(&notes, &[], latched, 0.0, 1200),
        vec![(0, 60), (240, 64), (480, 67), (720, 60), (960, 64)]
    );
    assert_eq!(walk_arp(&notes, &[], arp(ArpMode::Up, 1), 0.0, 1200), vec![(0, 60), (240, 64)]);
}

#[test]
fn arp_random_is_deterministic_and_in_set() {
    let notes = held(&[60, 64, 67], 0, 3840);
    let a = walk_arp(&notes, &[], arp(ArpMode::Random, 1), 0.0, 3840);
    let b = walk_arp(&notes, &[], arp(ArpMode::Random, 1), 0.0, 3840);
    assert_eq!(a, b);
    assert!(a.iter().all(|(_, m)| [60, 64, 67].contains(m)));
    assert_eq!(a.len(), 16);
}

#[test]
fn arp_chord_mode_retriggers_whole_chord() {
    let notes = held(&[60, 64, 67], 0, 3840);
    let cfg = arp(ArpMode::Chord, 1);
    let hits = cfg.emit(&notes, PatternTick(240), 0, &[], 1, 0);
    let got: Vec<u8> = hits.iter().map(|h| h.pitch.as_midi()).collect();
    assert_eq!(got, vec![60, 64, 67]);
    // One step per cycle at one octave: the ramp spans a one-step cycle.
    assert!(hits.iter().all(|h| h.cycle_len == 1 && h.pos == 0));
}

#[test]
fn arp_sees_held_notes_through_upstream_quantize() {
    let notes = held(&[61, 65, 68], 0, 3840);
    let upstream = [HeldStage::Quantize(c_major())];
    let got = walk_arp(&notes, &upstream, arp(ArpMode::Up, 1), 0.0, 720);
    assert_eq!(pitches(&got), vec![62, 65, 69]);
}

#[test]
fn arp_step_phase_restarts_on_new_chord_block() {
    let mut notes = held(&[60, 64, 67], 0, 480);
    notes.extend(held(&[62, 65, 69], 480, 480));
    let got = walk_arp(&notes, &[], arp(ArpMode::Up, 1), 0.0, 960);
    assert_eq!(got, vec![(0, 60), (240, 64), (480, 62), (720, 65)]);
}

#[test]
fn chord_then_arp_arpeggiates_the_whole_chord() {
    let notes = held(&[60], 0, 3840);
    let upstream = [HeldStage::Chord(Chord::major())];
    let got = walk_arp(&notes, &upstream, arp(ArpMode::Up, 1), 0.0, 720);
    assert_eq!(pitches(&got), vec![60, 64, 67]);
}

#[test]
fn strum_then_arp_ignores_strum_timing() {
    let notes = held(&[60], 0, 3840);
    let upstream = [HeldStage::Chord(Chord::major().with_strum(Duration(30), StrumDirection::Up))];
    let got = walk_arp(&notes, &upstream, arp(ArpMode::Up, 1), 0.0, 720);
    assert_eq!(pitches(&got), vec![60, 64, 67]);
}

#[test]
fn arp_step_gate_and_gap_durations() {
    let cfg = arp(ArpMode::Up, 1);
    // Gate 0.5 of a 16th: 120 ticks.
    assert_eq!(cfg.step_onset(0, PatternTick(0), 0, 120), Some((0, 120)));
    // A long gate on a swung odd step is clamped to the gap before the next onset.
    assert_eq!(cfg.step_onset(0, PatternTick(300), 60, 240), Some((1, 180)));
    // A tick off the grid is no onset.
    assert_eq!(cfg.step_onset(0, PatternTick(241), 0, 180), None);
    // A zero gate still sounds for one tick.
    assert_eq!(cfg.step_onset(0, PatternTick(480), 0, 0), Some((2, 1)));
}

#[test]
fn arp_milli_hz_nominal_ticks() {
    // 50 Hz at the default 120 BPM: 38.4 ticks, rounded to 38.
    assert_eq!(ArpRate::MilliHz(50_000).ticks(), Duration(38));
    // 60 Hz: 32 ticks exactly.
    assert_eq!(ArpRate::MilliHz(60_000).ticks(), Duration(32));
    // Very fast rates clamp to one tick.
    assert_eq!(ArpRate::MilliHz(u32::MAX).ticks(), Duration(1));
    assert_eq!(ArpRate::EighthDotted.ticks(), Duration(720));
    assert_eq!(ArpRate::ThirtySecondTriplet.ticks(), Duration(80));
}

#[test]
fn held_view_expands_through_chord_and_quantize() {
    let c = Pitch::new(61).unwrap();
    let view: Vec<u8> = expand_held_pitch(&[HeldStage::Quantize(c_major()), HeldStage::Chord(Chord::major())], c)
        .iter()
        .map(|p| p.as_midi())
        .collect();
    assert_eq!(view, vec![62, 66, 69]);
    // The root a chord builds from is the first pitch of the view.
    assert_eq!(upstream_pitch(&[HeldStage::Quantize(c_major())], c).as_midi(), 62);
    // A pass-through stage leaves the pitch as it is.
    assert_eq!(upstream_pitch(&[HeldStage::PassThrough], c).as_midi(), 61);
    // An empty chord swallows the pitch; the root falls back to the source.
    assert!(expand_held_pitch(&[HeldStage::Chord(Chord::new(&[]))], c).is_empty());
    assert_eq!(upstream_pitch(&[HeldStage::Chord(Chord::new(&[]))], c).as_midi(), 61);
}

#[test]
fn held_view_is_capped_per_stage() {
    // An 8-tone chord of an 8-tone chord would be 64 pitches; 16 are kept.
    let wide = Chord::new(&[0, 1, 2, 3, 4, 5, 6, 7]);
    let view = expand_held_pitch(&[HeldStage::Chord(wide), HeldStage::Chord(wide)], Pitch::new(40).unwrap());
    assert_eq!(view.len(), 16);
    let midis: Vec<u8> = view.iter().map(|p| p.as_midi()).collect();
    assert_eq!(&midis[..8], &[40, 41, 42, 43, 44, 45, 46, 47]);
}

#[test]
fn splitmix64_known_values() {
    // Reference outputs of the SplitMix64 step.
    assert_eq!(splitmix64(0), 0xE220_A839_7B1D_CDAF);
    assert_eq!(splitmix64(1), 0x910A_2DEC_8902_5CC1);
}

fn walk_strum(notes: &[Note], upstream: &[HeldStage], chord: Chord, ticks: u32) -> Vec<(u32, u8)> {
    let mut out = Vec::new();
    for t in 0..ticks {
        if chord.strum().0 == 0 {
            for n in notes.iter().filter(|n| n.start.0 == t) {
                for p in chord.tones(n.pitch) {
                    out.push((t, p.as_midi()));
                }
            }
        } else {
            for (_, p) in chord.strum_at(notes, PatternTick(t), upstream) {
                out.push((t, p.as_midi()));
            }
        }
    }
    out
}

#[test]
fn strum_up_staggers_tones_low_to_high() {
    let notes = held(&[60], 0, 960);
    let chord = Chord::major().with_strum(Duration(30), StrumDirection::Up);
    assert_eq!(walk_strum(&notes, &[], chord, 200), vec![(0, 60), (30, 64), (60, 67)]);
}

#[test]
fn strum_down_staggers_tones_high_to_low() {
    let notes = held(&[60], 0, 960);
    let chord = Chord::major().with_strum(Duration(30), StrumDirection::Down);
    assert_eq!(walk_strum(&notes, &[], chord, 200), vec![(0, 67), (30, 64), (60, 60)]);
}

#[test]
fn strum_zero_spread_is_a_block_chord() {
    let notes = held(&[60], 0, 960);
    let chord = Chord::major().with_strum(Duration(0), StrumDirection::Up);
    assert_eq!(walk_strum(&notes, &[], chord, 200), vec![(0, 60), (0, 64), (0, 67)]);
}

#[test]
fn strum_under_quantize_builds_from_snapped_root() {
    let notes = held(&[61], 0, 960);
    let chord = Chord::major().with_strum(Duration(30), StrumDirection::Up);
    let upstream = [HeldStage::Quantize(c_major())];
    assert_eq!(walk_strum(&notes, &upstream, chord, 200), vec![(0, 62), (30, 66), (60, 69)]);
}

#[test]
fn strum_sorts_tones_by_pitch_and_names_the_note() {
    // Intervals given high-to-low still strike low-to-high on an up-strum.
    let notes = held(&[60], 0, 960);
    let chord = Chord::new(&[7, 0, 4]).with_strum(Duration(10), StrumDirection::Up);
    assert_eq!(chord.strum_at(&notes, PatternTick(10), &[]).iter().map(|(i, p)| (*i, p.as_midi())).collect::<Vec<_>>(), vec![(0, 64)]);
    // Off the strum grid nothing lands.
    assert!(chord.strum_at(&notes, PatternTick(15), &[]).is_empty());
    // A huge spread still lands the first tone on the onset.
    let wide = Chord::major().with_strum(Duration(u32::MAX), StrumDirection::Up);
    let at0: Vec<u8> = wide.strum_at(&notes, PatternTick(0), &[]).iter().map(|(_, p)| p.as_midi()).collect();
    assert_eq!(at0, vec![60]);
}

/// Raw onsets of an ornament curve: even, accelerating (2u - u²) or
/// decelerating (u²), rounded.
fn raw_onsets(curve: u8, n: u32, total: i64) -> Vec<i64> {
    (0..n)
        .map(|k| {
            if n <= 1 || total == 0 {
                return 0;
            }
            let u = f64::from(k) / f64::from(n - 1);
            let w = match curve {
                1 => 2.0 * u - u * u,
                2 => u * u,
                _ => u,
            };
            (total as f64 * w).round() as i64
        })
        .collect()
}

fn walk_ornament(start: u32, midi: u8, fig: OrnamentFigure, curve: u8, offset: i32, ticks: u32) -> Vec<(u32, u8)> {
    let n = fig.hits();
    let base = i64::from(fig.spacing.0.max(1));
    let total = (i64::from(n) - 1) * base;
    let raw = raw_onsets(curve, n, total);
    let mut out = Vec::new();
    for t in 0..ticks {
        if n < 2 {
            if t == start {
                out.push((t, midi));
            }
            continue;
        }
        if let Some(hit) = fig.hit_at(start, t, &raw) {
            let p = if hit.is_main { midi } else { (midi as i32 + offset) as u8 };
            out.push((t, p));
        }
    }
    out
}

fn flam() -> OrnamentFigure {
    OrnamentFigure { count: 2, spacing: Duration(120), placement: OrnamentPlacement::LeadIn }
}

#[test]
fn ornament_count_below_two_is_a_noop() {
    let fig = OrnamentFigure { count: 1, ..flam() };
    assert_eq!(walk_ornament(480, 60, fig, 0, 0, 960), vec![(480, 60)]);
    assert_eq!(fig.hit_at(480, 480, &[0]), None);
}

#[test]
fn ornament_lead_in_main_lands_on_start() {
    assert_eq!(walk_ornament(480, 60, flam(), 0, 0, 960), vec![(360, 60), (480, 60)]);
}

#[test]
fn ornament_on_beat_trails_the_start() {
    let fig = OrnamentFigure { count: 3, placement: OrnamentPlacement::OnBeat, ..flam() };
    assert_eq!(walk_ornament(0, 60, fig, 0, 0, 600), vec![(0, 60), (120, 60), (240, 60)]);
}

#[test]
fn ornament_grace_takes_pitch_offset_main_keeps_pitch() {
    assert_eq!(walk_ornament(240, 60, flam(), 0, 2, 480), vec![(120, 62), (240, 60)]);
}

#[test]
fn ornament_lead_in_grace_before_tick_zero_is_dropped() {
    assert_eq!(walk_ornament(60, 60, flam(), 0, 0, 480), vec![(60, 60)]);
}

#[test]
fn ornament_grace_gap_and_main_flag() {
    let raw = raw_onsets(0, 2, 120);
    let grace = flam().hit_at(480, 360, &raw).unwrap();
    assert!(!grace.is_main);
    // The last (main) hit has no successor: its gap is the base spacing.
    assert_eq!(grace.gap, 120);
    let main = flam().hit_at(480, 480, &raw).unwrap();
    assert!(main.is_main);
    assert_eq!(main.index, 1);
}

#[test]
fn ornament_roll_is_bounded_by_hit_cap() {
    let fig = OrnamentFigure { count: u8::MAX, spacing: Duration(10), placement: OrnamentPlacement::OnBeat };
    assert_eq!(walk_ornament(0, 60, fig, 0, 0, 3840).len(), 64);
}

#[test]
fn ornament_accelerate_shrinks_the_gaps() {
    let fig = OrnamentFigure { count: 4, placement: OrnamentPlacement::OnBeat, ..flam() };
    let ticks: Vec<u32> = walk_ornament(0, 60, fig, 1, 0, 600).iter().map(|(t, _)| *t).collect();
    assert_eq!(ticks.first(), Some(&0));
    assert_eq!(ticks.last(), Some(&360));
    let gaps: Vec<u32> = ticks.windows(2).map(|w| w[1] - w[0]).collect();
    assert!(gaps.windows(2).all(|w| w[0] >= w[1]));
}

#[test]
fn ornament_curve_never_collides_two_hits_on_one_tick() {
    for curve in [1u8, 2] {
        let fig = OrnamentFigure { count: 3, spacing: Duration(1), ..flam() };
        let got = walk_ornament(480, 60, fig, curve, 0, 960);
        let ticks: Vec<u32> = got.iter().map(|(t, _)| *t).collect();
        let mut sorted = ticks.clone();
        sorted.sort_unstable();
        sorted.dedup();
        assert_eq!(ticks.len(), 3);
        assert_eq!(sorted.len(), 3);
        assert_eq!(ticks.last(), Some(&480));
    }
}

#[test]
fn ornament_onsets_are_pinned_and_strict() {
    // Accelerate with count 3 over span 2 rounds to [0, 2, 2]; the clamp
    // separates them into [0, 1, 2].
    let fig = OrnamentFigure { count: 3, spacing: Duration(1), ..flam() };
    assert_eq!(fig.onsets(&[0, 2, 2]), vec![0, 1, 2]);
    // A raw curve overshooting the span is pulled back to the endpoint.
    assert_eq!(fig.onsets(&[0, 5, 9]), vec![0, 1, 2]);
}

#[test]
fn ornament_walk_end_reaches_on_beat_tail() {
    let notes = held(&[60], 0, 240);
    let on_beat = OrnamentFigure { count: 4, placement: OrnamentPlacement::OnBeat, ..flam() };
    // Length 100 < note end 240 < figure end 0 + 1 + 3·120.
    assert_eq!(source_walk_end(Duration(100), &notes, &[Some(on_beat)]), 361);
    // A lead-in figure adds nothing past the note.
    assert_eq!(source_walk_end(Duration(100), &notes, &[Some(flam())]), 240);
    assert_eq!(source_walk_end(Duration(960), &notes, &[None]), 960);
}
