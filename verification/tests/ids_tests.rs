use std::collections::HashSet;
use synth_sequencer::ids::{NoteId, PatternId, RowCount, RowIndex, TicksPerRow, TrackCount, TrackIndex};

#[test]
fn test_id_equality() {
    let id1 = PatternId(1);
    let id2 = PatternId(1);
    let id3 = PatternId(2);

    assert_eq!(id1, id2);
    assert_ne!(id1, id3);
}

#[test]
fn test_id_hash() {
    let mut set = HashSet::new();
    set.insert(NoteId(1));
    set.insert(NoteId(2));
    set.insert(NoteId(1)); // Duplicate

    assert_eq!(set.len(), 2);
}

#[test]
fn row_index_steps_saturate_at_the_ends() {
    assert_eq!(RowIndex::new(0).prev().as_u16(), 0);
    assert_eq!(RowIndex::new(5).next().as_u16(), 6);
    assert_eq!(RowIndex::new(u16::MAX).next().as_u16(), u16::MAX);
    assert_eq!(RowIndex::new(u16::MAX - 1).saturating_add(10).as_u16(), u16::MAX);
    assert_eq!(RowIndex::new(3).saturating_sub(10).as_u16(), 0);
}

#[test]
fn counts_are_at_least_one_and_enumerate_indices() {
    assert_eq!(TrackCount::new(0).as_u8(), 1);
    assert_eq!(RowCount::new(0).as_u16(), 1);
    let idx = TrackCount::new(3).indices();
    assert_eq!(idx, vec![TrackIndex::new(0), TrackIndex::new(1), TrackIndex::new(2)]);
    assert_eq!(RowCount::new(2).indices(), vec![RowIndex::new(0), RowIndex::new(1)]);
}

#[test]
fn ticks_per_row_clamps_small_values() {
    assert_eq!(TicksPerRow::new(10).as_u16(), 40);
    assert_eq!(TicksPerRow::new(240).as_u16(), 240);
    assert_eq!(TicksPerRow::default().as_u32(), 240);
    assert_eq!(TicksPerRow::from(7u16).as_u16(), 7);
}
