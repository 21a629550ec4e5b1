use synth_sequencer::note_processor::{
    ArpOffsets, Chord, PitchClass, ScaleMask, ScaleQuantize, StrumDirection, MAX_CHORD_INTERVALS,
};
use synth_sequencer::pitch::Pitch;
use synth_sequencer::time::Duration;

fn c_major() -> ScaleQuantize {
    ScaleQuantize { root: PitchClass::new(0), mask: ScaleMask::major() }
}

#[test]
fn scale_mask_membership() {
    assert!(ScaleMask::major().contains_interval(0));
    assert!(!ScaleMask::major().contains_interval(1));
    assert!(ScaleMask::major().contains_interval(11));
    assert!(ScaleMask::chromatic().contains_interval(6));
    assert!(ScaleMask::from_intervals(&[]).is_empty());
    assert!(!ScaleMask::major().is_empty());
    // Intervals wrap mod 12.
    assert!(ScaleMask::from_intervals(&[12]).contains_interval(0));
}

#[test]
fn pitch_class_wraps() {
    assert_eq!(PitchClass::new(13).as_u8(), 1);
    assert_eq!(PitchClass::new(11).as_u8(), 11);
}

#[test]
fn scale_quantize_snaps_to_nearest_preferring_up() {
    let q = c_major();
    assert_eq!(q.snap(Pitch::new(60).unwrap()).as_midi(), 60);
    // C# is equidistant from C and D → prefer up → D.
    assert_eq!(q.snap(Pitch::new(61).unwrap()).as_midi(), 62);
    // F# is equidistant from F and G → prefer up → G.
    assert_eq!(q.snap(Pitch::new(66).unwrap()).as_midi(), 67);
}

#[test]
fn scale_quantize_empty_mask_is_noop() {
    let q = ScaleQuantize { root: PitchClass::new(0), mask: ScaleMask::from_intervals(&[]) };
    assert_eq!(q.snap(Pitch::new(61).unwrap()).as_midi(), 61);
}

#[test]
fn scale_quantize_nonzero_root() {
    // A natural minor: A B C D E F G — G# (68) snaps up to A (69).
    let q = ScaleQuantize { root: PitchClass::new(9), mask: ScaleMask::natural_minor() };
    assert!(q.contains(Pitch::new(69).unwrap()));
    assert_eq!(q.snap(Pitch::new(68).unwrap()).as_midi(), 69);
}

#[test]
fn chord_new_clamps_excess_intervals() {
    let c = Chord::new(&[0, 1, 2, 3, 4, 5, 6, 7, 8, 9, 10]);
    assert_eq!(c.intervals().len(), MAX_CHORD_INTERVALS);
    assert_eq!(c.intervals(), &[0, 1, 2, 3, 4, 5, 6, 7]);
}

#[test]
fn snapping_is_idempotent_and_lands_in_scale() {
    for root in 0u8..12 {
        let q = ScaleQuantize { root: PitchClass::new(root), mask: ScaleMask::pentatonic_minor() };
        for m in 6u8..=121 {
            let s = q.snap(Pitch::new(m).unwrap());
            assert!(q.contains(s));
            assert_eq!(q.snap(s), s);
        }
    }
}

#[test]
fn chord_tones_skip_pitches_off_the_range() {
    let c = Chord::major();
    let tones: Vec<u8> = c.tones(Pitch::new(60).unwrap()).iter().map(|p| p.as_midi()).collect();
    assert_eq!(tones, vec![60, 64, 67]);
    let high: Vec<u8> = c.tones(Pitch::new(122).unwrap()).iter().map(|p| p.as_midi()).collect();
    assert_eq!(high, vec![122, 126]);
}

#[test]
fn strum_tail_spans_all_but_the_first_tone() {
    let c = Chord::dominant7().with_strum(Duration(30), StrumDirection::Down);
    assert_eq!(c.strum_tail(), 90);
    assert_eq!(c.direction(), StrumDirection::Down);
    assert_eq!(Chord::major().strum_tail(), 0);
    let huge = Chord::major().with_strum(Duration(u32::MAX), StrumDirection::Up);
    assert_eq!(huge.strum_tail(), u32::MAX);
}

#[test]
fn arp_offsets_cap_at_sixteen() {
    let offs = ArpOffsets::new(&[0; 20]);
    assert_eq!(offs.len(), 16);
    assert!(!offs.is_empty());
    assert!(ArpOffsets::new(&[]).is_empty());
}
