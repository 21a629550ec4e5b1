use synth_sequencer::pitch::{NoteName, Pitch, Velocity};

#[test]
fn test_pitch_creation() {
    assert!(Pitch::new(60).is_some());
    assert!(Pitch::new(128).is_none());
}

#[test]
fn test_pitch_octave_note() {
    let c4 = Pitch::from_octave_note(4, NoteName::C).unwrap();
    assert_eq!(c4.as_midi(), 60);

    let a4 = Pitch::from_octave_note(4, NoteName::A).unwrap();
    assert_eq!(a4.as_midi(), 69);
}

#[test]
fn test_pitch_note_name() {
    let pitch = Pitch::new(60).unwrap();
    assert_eq!(pitch.note_name(), NoteName::C);
    assert_eq!(pitch.octave(), 4);
}

#[test]
fn test_note_name_black_keys() {
    assert!(NoteName::Cs.is_black_key());
    assert!(NoteName::Fs.is_black_key());
    assert!(!NoteName::C.is_black_key());
    assert!(!NoteName::E.is_black_key());
}

#[test]
fn pitch_transpose_by_semitones() {
    let c4 = Pitch::new(60).unwrap();
    assert_eq!(c4.transpose(12).unwrap().as_midi(), 72);
    assert_eq!(c4.transpose(-12).unwrap().as_midi(), 48);
    assert!(Pitch::new(120).unwrap().transpose(20).is_none());
    assert!(Pitch::new(10).unwrap().transpose(-20).is_none());
}

#[test]
fn octave_and_name_round_trip() {
    for m in 0u8..=127 {
        let p = Pitch::new(m).unwrap();
        let back = Pitch::from_octave_note(p.octave(), p.note_name()).unwrap();
        assert_eq!(back.as_midi(), m);
    }
    assert_eq!(Pitch::new(0).unwrap().octave(), -1);
}

#[test]
fn velocity_midi_scale() {
    assert_eq!(Velocity::from_midi(200).to_midi(), 127);
    assert_eq!(Velocity::from_midi(64).to_midi(), 64);
    assert_eq!(Velocity::mf().to_midi(), 80);
    assert_eq!(Velocity::default().to_midi(), 80);
}

#[test]
fn test_pitch_transpose() {
    let c4 = Pitch::new(60).unwrap();
    assert_eq!(c4.transpose(12).unwrap().as_midi(), 72);
    assert_eq!(c4.transpose(-12).unwrap().as_midi(), 48);

    let high = Pitch::new(120).unwrap();
    assert!(high.transpose(20).is_none());

    let low = Pitch::new(10).unwrap();
    assert!(low.transpose(-20).is_none());
}

#[test]
fn pitch_label_is_name_and_octave() {
    assert_eq!(Pitch::new(60).unwrap().label(), "C4");
    assert_eq!(Pitch::new(61).unwrap().label(), "C#4");
    assert_eq!(Pitch::new(10).unwrap().label(), "A#-1");
    assert_eq!(Pitch::new(127).unwrap().label(), "G9");
    assert_eq!(NoteName::Fs.symbol(), "F#");
}
