use synth_sequencer::ids::NoteId;
use synth_sequencer::note::{Note, VibratoShape};
use synth_sequencer::pitch::{Pitch, Velocity};
use synth_sequencer::time::{Duration, PatternTick};

fn test_note() -> Note {
    Note::new(NoteId(0), PatternTick(0), Pitch::new(60).unwrap(), Velocity::mf())
}

#[test]
fn test_vibrato_shape_from_token() {
    assert_eq!(VibratoShape::from_token("sine"), Some(VibratoShape::Sine));
    assert_eq!(VibratoShape::from_token(" TRI "), Some(VibratoShape::Triangle));
    assert_eq!(VibratoShape::from_token("Square"), Some(VibratoShape::Square));
    assert_eq!(VibratoShape::from_token("sawtooth"), Some(VibratoShape::Saw));
    // Unknown/typo → None (caller rejects rather than silently coercing).
    assert_eq!(VibratoShape::from_token("sqaure"), None);
    assert_eq!(VibratoShape::from_token(""), None);
}

#[test]
fn vibrato_tokens_ignore_unicode_space_and_case() {
    assert_eq!(VibratoShape::from_token("\u{3000}SaW\t\n"), Some(VibratoShape::Saw));
    assert_eq!(VibratoShape::from_token("sIn"), Some(VibratoShape::Sine));
    assert_eq!(VibratoShape::from_token("s ine"), None);
    assert_eq!(VibratoShape::from_token("   "), None);
}

#[test]
fn test_note_creation() {
    let note = test_note();
    assert_eq!(note.pitch.as_midi(), 60);
    assert_eq!(note.start.0, 0);
    assert!(note.duration.is_none());
}

#[test]
fn test_note_with_duration() {
    let note = test_note().with_duration(Duration::quarter());
    assert_eq!(note.duration, Some(Duration::quarter()));
    assert_eq!(note.end(), Some(PatternTick(960)));
}

#[test]
fn test_note_is_playing_at() {
    let note = test_note().with_duration(Duration::quarter());

    assert!(note.is_playing_at(PatternTick(0)));
    assert!(note.is_playing_at(PatternTick(480)));
    assert!(!note.is_playing_at(PatternTick(960)));
    assert!(!note.is_playing_at(PatternTick(1000)));

    let late_note = Note::new(NoteId(1), PatternTick(100), Pitch::new(60).unwrap(), Velocity::mf())
        .with_duration(Duration(200));

    assert!(!late_note.is_playing_at(PatternTick(50)));
    assert!(late_note.is_playing_at(PatternTick(100)));
    assert!(late_note.is_playing_at(PatternTick(200)));
    assert!(!late_note.is_playing_at(PatternTick(300)));
}

#[test]
fn test_note_defaults_legato_glide() {
    let note = test_note();
    assert!(!note.legato);
    assert!(note.with_legato(true).legato);
}

#[test]
fn test_note_overlaps() {
    let note = Note::new(NoteId(0), PatternTick(100), Pitch::new(60).unwrap(), Velocity::mf())
        .with_duration(Duration(200));

    assert!(note.overlaps(PatternTick(0), PatternTick(150)));
    assert!(note.overlaps(PatternTick(200), PatternTick(400)));
    assert!(note.overlaps(PatternTick(150), PatternTick(250)));

    assert!(!note.overlaps(PatternTick(0), PatternTick(100)));
    assert!(!note.overlaps(PatternTick(300), PatternTick(400)));
}

#[test]
fn a_note_without_duration_plays_until_cut() {
    let note = Note::new(NoteId(2), PatternTick(50), Pitch::new(40).unwrap(), Velocity::mf());
    assert!(note.is_playing_at(PatternTick(u32::MAX)));
    assert!(!note.is_playing_at(PatternTick(49)));
    assert_eq!(note.end(), None);
    assert!(note.overlaps(PatternTick(1000), PatternTick(2000)));
}
