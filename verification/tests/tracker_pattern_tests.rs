use synth_sequencer::effects::EffectCommand;
use synth_sequencer::ids::{InstrumentId, PatternId, RowCount, RowIndex, TrackCount, TrackIndex};
use synth_sequencer::pitch::Pitch;
use synth_sequencer::time::PatternTick;
use synth_sequencer::tracker_pattern::{Cell, TrackerPattern};

#[test]
fn tracker_pattern_test_pattern_creation() {
    let pattern = TrackerPattern::new(PatternId::new(0), TrackCount::new(4), RowCount::new(64));

    assert_eq!(pattern.num_tracks().as_u8(), 4);
    assert_eq!(pattern.num_rows().as_u16(), 64);
    assert_eq!(pattern.ticks_per_row().as_u16(), 240); // Default: 240 song ticks
    assert_eq!(pattern.length_ticks().0, 64 * 240); // 64 rows * 240 ticks
}

#[test]
fn test_cell_access() {
    let mut pattern = TrackerPattern::new(PatternId::new(0), TrackCount::new(4), RowCount::new(64));

    let pitch = Pitch::new(60).unwrap();
    let instrument = InstrumentId::new(1);

    pattern.set_cell(TrackIndex::new(0), RowIndex::new(0), Cell::note(pitch, instrument));

    let row = pattern.get(TrackIndex::new(0), RowIndex::new(0));
    assert!(row.has_note());
    assert_eq!(row.cell.pitch(), Some(pitch));
    assert_eq!(row.cell.instrument(), Some(instrument));
}

#[test]
fn test_note_off_is_explicit_only() {
    let mut pattern = TrackerPattern::new(PatternId::new(0), TrackCount::new(1), RowCount::new(4));

    let pitch1 = Pitch::new(60).unwrap();
    let pitch2 = Pitch::new(64).unwrap();
    let instrument = InstrumentId::new(1);

    pattern.set_cell(TrackIndex::zero(), RowIndex::new(0), Cell::note(pitch1, instrument));
    pattern.set_cell(TrackIndex::zero(), RowIndex::new(2), Cell::note_off());
    pattern.set_cell(TrackIndex::zero(), RowIndex::new(3), Cell::note(pitch2, instrument));

    assert!(pattern.get(TrackIndex::zero(), RowIndex::new(0)).has_note());
    assert!(pattern.get(TrackIndex::zero(), RowIndex::new(1)).cell.is_empty());
    assert!(pattern.get(TrackIndex::zero(), RowIndex::new(2)).has_note_off());
    assert!(pattern.get(TrackIndex::zero(), RowIndex::new(3)).has_note());
}

#[test]
fn test_instrument_inheritance() {
    let pitch = Pitch::new(60).unwrap();

    let cell1 = Cell::note(pitch, InstrumentId::new(5));
    assert_eq!(cell1.instrument(), Some(InstrumentId::new(5)));

    let cell2 = Cell::note_inherit_instrument(pitch);
    assert_eq!(cell2.instrument(), None);
}

#[test]
fn test_non_empty_rows_iteration() {
    let mut pattern = TrackerPattern::new(PatternId::new(0), TrackCount::new(2), RowCount::new(4));

    let pitch = Pitch::new(60).unwrap();
    let instrument = InstrumentId::new(1);

    pattern.set_cell(TrackIndex::new(0), RowIndex::new(0), Cell::note(pitch, instrument));
    pattern.set_cell(TrackIndex::new(1), RowIndex::new(2), Cell::note(pitch, instrument));

    let non_empty = pattern.non_empty_rows();
    assert_eq!(non_empty.len(), 2);
    assert_eq!(non_empty[0].0.as_u8(), 0);
    assert_eq!(non_empty[0].1.as_u16(), 0);
    assert_eq!(non_empty[1].0.as_u8(), 1);
    assert_eq!(non_empty[1].1.as_u16(), 2);
}

#[test]
fn test_row_to_tick_conversion() {
    let pattern = TrackerPattern::new(PatternId::new(0), TrackCount::new(1), RowCount::new(64));

    assert_eq!(pattern.row_to_tick(RowIndex::new(0)).0, 0);
    assert_eq!(pattern.row_to_tick(RowIndex::new(1)).0, 240);
    assert_eq!(pattern.row_to_tick(RowIndex::new(10)).0, 2400);

    assert_eq!(pattern.tick_to_row(PatternTick(0)).as_u16(), 0);
    assert_eq!(pattern.tick_to_row(PatternTick(240)).as_u16(), 1);
    assert_eq!(pattern.tick_to_row(PatternTick(400)).as_u16(), 1); // Truncates
}

#[test]
fn test_effects_on_row() {
    let mut pattern = TrackerPattern::new(PatternId::new(0), TrackCount::new(1), RowCount::new(4));

    pattern.add_effect(TrackIndex::zero(), RowIndex::new(0), EffectCommand::SetVolume(64));
    pattern.add_effect(
        TrackIndex::zero(),
        RowIndex::new(0),
        EffectCommand::Vibrato { speed: 4, depth: 8 },
    );

    let row = pattern.get(TrackIndex::zero(), RowIndex::new(0));
    assert!(row.has_effects());
    assert_eq!(row.effects.len(), 2);

    assert!(!row.is_empty());
}

#[test]
fn test_cell_equality() {
    let pitch = Pitch::new(60).unwrap();
    let instrument = InstrumentId::new(1);

    let cell1 = Cell::note(pitch, instrument);
    let cell2 = Cell::note(pitch, instrument);
    let cell3 = Cell::note_off();

    assert_eq!(cell1, cell2);
    assert_ne!(cell1, cell3);
    assert_eq!(Cell::Empty, Cell::Empty);
}

#[test]
fn clearing_a_cell_and_its_effects_empties_the_row() {
    let mut pattern = TrackerPattern::new(PatternId::new(0), TrackCount::new(1), RowCount::new(4));
    let pitch = Pitch::new(60).unwrap();
    pattern.set_cell(TrackIndex::zero(), RowIndex::new(1), Cell::note(pitch, InstrumentId::new(2)));
    pattern.add_effect(TrackIndex::zero(), RowIndex::new(1), EffectCommand::SetVolume(1));
    pattern.clear_cell(TrackIndex::zero(), RowIndex::new(1));
    assert!(!pattern.get(TrackIndex::zero(), RowIndex::new(1)).is_empty());
    pattern.clear_effects(TrackIndex::zero(), RowIndex::new(1));
    assert!(pattern.get(TrackIndex::zero(), RowIndex::new(1)).is_empty());
    assert!(pattern.non_empty_rows().is_empty());
}

#[test]
fn row_across_tracks_lists_every_track() {
    let mut pattern = TrackerPattern::new(PatternId::new(3), TrackCount::new(3), RowCount::new(8));
    let pitch = Pitch::new(62).unwrap();
    pattern.set_cell(TrackIndex::new(2), RowIndex::new(5), Cell::note(pitch, InstrumentId::new(1)));
    let across = pattern.row_across_tracks(RowIndex::new(5));
    assert_eq!(across.len(), 3);
    assert!(across[0].1.is_empty());
    assert!(across[2].1.has_note());
    assert_eq!(across[2].0.as_u8(), 2);
}
