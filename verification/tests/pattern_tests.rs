use synth_sequencer::ids::{NoteId, PatternId, RowCount, RowIndex, TicksPerRow};
use synth_sequencer::note::Note;
use synth_sequencer::pattern::{Pattern, RowResolution};
use synth_sequencer::pitch::{Pitch, Velocity};
use synth_sequencer::time::{Duration, PatternTick};

fn test_pattern() -> Pattern {
    Pattern::new(PatternId(0), Duration(3840))
}

#[test]
fn pattern_test_pattern_creation() {
    let pattern = test_pattern();
    assert_eq!(pattern.length().0, 3840);
    assert!(pattern.notes().is_empty());
}

#[test]
fn test_add_and_retrieve_note() {
    let mut pattern = test_pattern();
    let id = pattern.add_note(PatternTick(0), Pitch::new(60).unwrap(), Velocity::mf());

    assert!(pattern.note(id).is_some());
    assert_eq!(pattern.note(id).unwrap().pitch.as_midi(), 60);
}

#[test]
fn test_notes_stay_sorted() {
    let mut pattern = test_pattern();

    let _ = pattern.add_note(PatternTick(480), Pitch::new(60).unwrap(), Velocity::mf());
    let _ = pattern.add_note(PatternTick(0), Pitch::new(62).unwrap(), Velocity::mf());
    let _ = pattern.add_note(PatternTick(240), Pitch::new(64).unwrap(), Velocity::mf());

    let ticks: Vec<_> = pattern.notes().iter().map(|n| n.start.0).collect();
    assert_eq!(ticks, vec![0, 240, 480]);
}

#[test]
fn test_remove_note() {
    let mut pattern = test_pattern();
    let id = pattern.add_note(PatternTick(0), Pitch::new(60).unwrap(), Velocity::mf());

    assert!(pattern.remove_note(id).is_some());
    assert!(pattern.note(id).is_none());
}

#[test]
fn test_move_note() {
    let mut pattern = test_pattern();
    let id = pattern.add_note(PatternTick(0), Pitch::new(60).unwrap(), Velocity::mf());

    assert!(pattern.move_note(id, PatternTick(480)));
    assert_eq!(pattern.note(id).unwrap().start.0, 480);
}

#[test]
fn test_quantize_notes() {
    let resolution = RowResolution::standard_64();
    let mut pattern = test_pattern();

    let id = pattern.add_note(PatternTick(120), Pitch::new(60).unwrap(), Velocity::mf());

    pattern.quantize_notes(resolution);

    let note = pattern.note(id).unwrap();
    assert_eq!(note.start.0, 240);
}

#[test]
fn test_notes_in_range() {
    let mut pattern = test_pattern();

    let note1 = Note::new(NoteId(0), PatternTick(100), Pitch::new(60).unwrap(), Velocity::mf())
        .with_duration(Duration(40));
    let note2 = Note::new(NoteId(1), PatternTick(200), Pitch::new(62).unwrap(), Velocity::mf())
        .with_duration(Duration(40));
    let note3 = Note::new(NoteId(2), PatternTick(300), Pitch::new(64).unwrap(), Velocity::mf())
        .with_duration(Duration(40));

    let _ = pattern.insert_note(note1);
    let _ = pattern.insert_note(note2);
    let _ = pattern.insert_note(note3);

    let notes = pattern.notes_in_range(PatternTick(150), PatternTick(250));
    assert_eq!(notes.len(), 1);
    assert_eq!(notes[0].start.0, 200);

    let mut pattern2 = test_pattern();
    let _ = pattern2.add_note(PatternTick(100), Pitch::new(60).unwrap(), Velocity::mf());
    let _ = pattern2.add_note(PatternTick(200), Pitch::new(62).unwrap(), Velocity::mf());

    let notes = pattern2.notes_in_range(PatternTick(150), PatternTick(250));
    assert_eq!(notes.len(), 2);
}

#[test]
fn test_row_resolution() {
    let res = RowResolution::standard_64();
    assert_eq!(res.total_ticks().0, 64 * 240);
    assert_eq!(res.row_to_tick(RowIndex::new(4)).0, 960);
    assert_eq!(res.tick_to_row(PatternTick(960)), RowIndex::new(4));
}

#[test]
fn quantize_rounds_half_up_and_is_idempotent() {
    let res = RowResolution::custom(RowCount::new(16), TicksPerRow::new(100));
    assert_eq!(res.quantize(PatternTick(49)).0, 0);
    assert_eq!(res.quantize(PatternTick(50)).0, 100);
    assert_eq!(res.quantize(PatternTick(149)).0, 100);
    for t in 0..1000u32 {
        let q = res.quantize(PatternTick(t));
        assert_eq!(q.0 % 100, 0);
        assert!(q.0 + 50 >= t && q.0 <= t + 50);
        assert_eq!(res.quantize(q), q);
    }
    assert_eq!(RowResolution::high_128().total_ticks().0, 128 * 120);
    assert_eq!(RowResolution::short_16().total_ticks().0, 16 * 240);
}

#[test]
fn equal_starts_keep_insertion_order_and_ids_are_fresh() {
    let mut pattern = test_pattern();
    let a = pattern.add_note(PatternTick(10), Pitch::new(60).unwrap(), Velocity::mf());
    let b = pattern.add_note(PatternTick(10), Pitch::new(61).unwrap(), Velocity::mf());
    let c = pattern.add_note(PatternTick(5), Pitch::new(62).unwrap(), Velocity::mf());
    assert_eq!(a, NoteId(0));
    assert_eq!(b, NoteId(1));
    assert_eq!(c, NoteId(2));
    let ids: Vec<NoteId> = pattern.notes().iter().map(|n| n.id).collect();
    assert_eq!(ids, vec![c, a, b]);
    pattern.remove_note(a);
    let d = pattern.add_note(PatternTick(0), Pitch::new(63).unwrap(), Velocity::mf());
    assert_eq!(d, NoteId(3));
}

#[test]
fn note_edits_report_missing_notes() {
    let mut pattern = test_pattern();
    let id = pattern.add_note(PatternTick(0), Pitch::new(120).unwrap(), Velocity::mf());
    assert!(!pattern.transpose_note(id, 10));
    assert_eq!(pattern.note(id).unwrap().pitch.as_midi(), 120);
    assert!(pattern.transpose_note(id, -12));
    assert_eq!(pattern.note(id).unwrap().pitch.as_midi(), 108);
    assert!(pattern.resize_note(id, Duration(10)));
    assert_eq!(pattern.note(id).unwrap().duration, Some(Duration(10)));
    assert!(pattern.set_note_velocity(id, Velocity::from_midi(3)));
    assert!(pattern.set_note_legato(id, true));
    assert!(pattern.note(id).unwrap().legato);
    let missing = NoteId(99);
    assert!(!pattern.resize_note(missing, Duration(1)));
    assert!(!pattern.move_note(missing, PatternTick(1)));
    assert!(pattern.remove_note(missing).is_none());
    assert_eq!(pattern.notes_at_pitch(Pitch::new(108).unwrap()).len(), 1);
    pattern.transpose_all(30);
    assert_eq!(pattern.note(id).unwrap().pitch.as_midi(), 108);
    pattern.transpose_all(-8);
    assert_eq!(pattern.note(id).unwrap().pitch.as_midi(), 100);
    pattern.clear_notes();
    assert!(pattern.is_empty());
    assert_eq!(pattern.note_count(), 0);
}

#[test]
fn add_then_remove_restores_the_notes() {
    let mut p = Pattern::new(PatternId::new(0), Duration(3840));
    p.add_note(PatternTick(0), Pitch::new(60).unwrap(), Velocity::from_midi(100));
    p.add_note(PatternTick(960), Pitch::new(64).unwrap(), Velocity::from_midi(100));
    let before: Vec<(u32, u8)> = p.notes().iter().map(|n| (n.start.0, n.pitch.as_midi())).collect();
    let id = p.add_note(PatternTick(480), Pitch::new(67).unwrap(), Velocity::from_midi(90));
    assert!(p.remove_note(id).is_some());
    let after: Vec<(u32, u8)> = p.notes().iter().map(|n| (n.start.0, n.pitch.as_midi())).collect();
    assert_eq!(before, after);
}
