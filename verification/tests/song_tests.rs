use synth_sequencer::ids::{InstrumentId, PatternId, TrackId};
use synth_sequencer::pitch::{Pitch, Velocity};
use synth_sequencer::song::{PatternPlacement, Song};
use synth_sequencer::time::{Duration, PatternTick, Tick, TimeSignature};
use synth_sequencer::track::SequencerTrack;

fn song() -> Song<(), (), ()> {
    Song::new("Test".to_string(), ())
}

#[test]
fn test_pattern_management() {
    let mut song = song();
    let id = song.create_pattern(Duration(3840));
    assert!(song.pattern(id).is_some());
    assert_eq!(song.pattern_count(), 1);

    song.delete_pattern(id);
    assert!(song.pattern(id).is_none());
    assert_eq!(song.pattern_count(), 0);
}

#[test]
fn test_track_management() {
    let mut song = song();
    let id = song.create_track("Lead".to_string());
    assert_eq!(song.track(id).unwrap().name, "Lead");
    assert_eq!(song.track_count(), 1);
}

#[test]
fn test_arrangement() {
    let mut song = song();
    let pattern_id = song.create_pattern(Duration(3840));
    let track_id = song.create_track("Track 1".to_string());
    song.place_pattern(pattern_id, track_id, Tick(0));
    song.place_pattern(pattern_id, track_id, Tick(3840));
    assert_eq!(song.arrangement().len(), 2);
}

#[test]
fn test_calculate_length() {
    let mut song = song();
    let pattern_id = song.create_pattern(Duration(3840));
    let track_id = song.create_track("Track".to_string());
    song.place_pattern(pattern_id, track_id, Tick(0));
    song.place_pattern(pattern_id, track_id, Tick(3840));
    assert_eq!(song.calculate_length().0, 7680);
}

#[test]
fn structure_generation_tracks_length_affecting_mutations() {
    let mut song = song();
    let g0 = song.structure_generation();
    let _ = song.calculate_length();
    assert_eq!(song.structure_generation(), g0, "reads must not bump");

    let pattern_id = song.create_pattern(Duration(960));
    let g_after_pattern = song.structure_generation();
    assert!(g_after_pattern > g0, "create_pattern must bump");

    let track_id = song.create_track("Track".to_string());

    assert!(song.place_pattern(pattern_id, track_id, Tick(0)));
    let g_after_place = song.structure_generation();
    assert!(g_after_place > g_after_pattern, "place_pattern must bump");

    assert!(song.set_placement_length(pattern_id, track_id, Tick(0), Some(Duration(1920))));
    let g_after_len = song.structure_generation();
    assert!(g_after_len > g_after_place, "set_placement_length must bump");

    let _ = song.pattern_mut(pattern_id);
    assert!(song.structure_generation() > g_after_len, "pattern_mut must bump conservatively");

    assert!(!song.move_placement(pattern_id, track_id, Tick(9999), track_id, Tick(0)));
    assert_eq!(song.calculate_length().0, 1920);
}

#[test]
fn test_move_placement() {
    let mut song = song();
    let pattern_id = song.create_pattern(Duration(960));
    let track1 = song.create_track("Track 1".to_string());
    let track2 = song.create_track("Track 2".to_string());
    song.place_pattern(pattern_id, track1, Tick(0));

    assert!(song.move_placement(pattern_id, track1, Tick(0), track2, Tick(1920)));
    assert_eq!(song.arrangement().len(), 1);
    assert_eq!(song.arrangement()[0].track_id, track2);
    assert_eq!(song.arrangement()[0].start, Tick(1920));

    assert!(!song.move_placement(pattern_id, track1, Tick(0), track2, Tick(0)));
}

#[test]
fn test_placements_in_range() {
    let mut song = song();
    let pattern_id = song.create_pattern(Duration(960));
    let track_id = song.create_track("Track".to_string());
    song.place_pattern(pattern_id, track_id, Tick(0));
    song.place_pattern(pattern_id, track_id, Tick(1000));
    song.place_pattern(pattern_id, track_id, Tick(2000));

    let placements = song.placements_in_range(Tick(500), Tick(1500));
    assert_eq!(placements.len(), 2);
}

#[test]
fn tracks_mut_iterates_every_track() {
    let mut song = song();
    let a = song.create_track("A".to_string());
    let b = song.create_track("B".to_string());
    let c = song.create_track("C".to_string());

    let mut seen: Vec<TrackId> = song.tracks_mut().iter().map(|t| t.id).collect();
    seen.sort_by_key(|id| id.0);
    assert_eq!(seen, vec![a, b, c]);

    for track in song.tracks_mut() {
        track.mute = true;
    }
    assert!(song.tracks().iter().all(|t| t.mute));
}

#[test]
fn set_solo_only_isolates_target_and_clears_others() {
    let mut song = song();
    let a = song.create_track("A".to_string());
    let b = song.create_track("B".to_string());
    let c = song.create_track("C".to_string());

    song.track_mut(a).unwrap().solo = true;
    song.track_mut(b).unwrap().solo = true;

    song.set_solo_only(c);

    assert!(!song.track(a).unwrap().solo);
    assert!(!song.track(b).unwrap().solo);
    assert!(song.track(c).unwrap().solo);
    assert!(song.any_solo());
}

#[test]
fn set_solo_only_with_unknown_target_clears_all() {
    let mut song = song();
    let a = song.create_track("A".to_string());
    song.track_mut(a).unwrap().solo = true;

    song.set_solo_only(TrackId(9999));

    assert!(!song.track(a).unwrap().solo);
    assert!(!song.any_solo());
}

#[test]
fn song_name_and_author_builders() {
    let song = song().with_author("Test Author".to_string());
    assert_eq!(song.name(), "Test");
    assert_eq!(song.author(), "Test Author");
    assert_eq!(song.default_time_signature(), TimeSignature::common());
}

#[test]
fn place_pattern_refuses_unknown_ids_and_duplicates() {
    let mut song = song();
    let p = song.create_pattern(Duration(960));
    let t = song.create_track("T".to_string());
    assert!(!song.place_pattern(PatternId(7), t, Tick(0)));
    assert!(!song.place_pattern(p, TrackId(7), Tick(0)));
    assert!(song.place_pattern(p, t, Tick(960)));
    assert!(!song.place_pattern(p, t, Tick(960)));
    assert!(song.place_pattern(p, t, Tick(0)));
    let starts: Vec<u64> = song.arrangement().iter().map(|a| a.start.0).collect();
    assert_eq!(starts, vec![0, 960]);
}

#[test]
fn deleting_a_pattern_or_track_drops_its_placements() {
    let mut song = song();
    let p1 = song.create_pattern(Duration(960));
    let p2 = song.create_pattern(Duration(960));
    let t1 = song.create_track("T1".to_string());
    let t2 = song.create_track("T2".to_string());
    song.place_pattern(p1, t1, Tick(0));
    song.place_pattern(p2, t1, Tick(960));
    song.place_pattern(p1, t2, Tick(1920));
    assert!(song.delete_pattern(p1).is_some());
    assert_eq!(song.arrangement().len(), 1);
    assert_eq!(song.arrangement()[0].pattern_id, p2);
    assert!(song.delete_track(t1).is_some());
    assert!(song.arrangement().is_empty());
    assert!(song.delete_track(t1).is_none());
    // Ids are never reused.
    assert_eq!(song.create_pattern(Duration(10)), PatternId(2));
}

#[test]
fn duplicate_pattern_copies_notes_and_name() {
    let mut song = song();
    let id = song.create_pattern(Duration(1920));
    {
        let p = song.pattern_mut(id).unwrap();
        p.set_name("Verse".to_string());
        let _ = p.add_note(PatternTick(480), Pitch::new(64).unwrap(), Velocity::mf());
        let _ = p.add_note(PatternTick(0), Pitch::new(60).unwrap(), Velocity::mf());
    }
    let copy_id = song.duplicate_pattern(id).unwrap();
    assert_eq!(copy_id, PatternId(1));
    let copy = song.pattern(copy_id).unwrap();
    assert_eq!(copy.name(), "Verse (copy)");
    assert_eq!(copy.length(), Duration(1920));
    let notes: Vec<(u32, u8)> = copy.notes().iter().map(|n| (n.start.0, n.pitch.as_midi())).collect();
    assert_eq!(notes, vec![(0, 60), (480, 64)]);
    assert!(song.duplicate_pattern(PatternId(9)).is_none());
}

#[test]
fn insert_restores_under_the_old_id() {
    let mut song = song();
    let id = song.create_pattern(Duration(960));
    let removed = song.delete_pattern(id).unwrap();
    assert!(song.insert_pattern(removed));
    assert!(song.pattern(id).is_some());
    let t = song.create_track("A".to_string());
    let track = song.delete_track(t).unwrap();
    let _ = song.create_track("B".to_string());
    assert!(song.insert_track(track, Some(0)));
    assert_eq!(song.tracks()[0].name, "A");
    assert!(!song.insert_track(SequencerTrack::new(t, "dup".to_string()), None));
    // A restored id far ahead pushes the next id past it.
    assert!(song.insert_track(SequencerTrack::new(TrackId(40), "far".to_string()), None));
    assert_eq!(song.create_track("next".to_string()), TrackId(41));
}

#[test]
fn reorder_and_isolate_tracks() {
    let mut song = song();
    let a = song.create_track("A".to_string());
    let b = song.create_track("B".to_string());
    let c = song.create_track("C".to_string());
    assert!(song.reorder_track(0, 2));
    let order: Vec<TrackId> = song.tracks().iter().map(|t| t.id).collect();
    assert_eq!(order, vec![b, c, a]);
    assert!(!song.reorder_track(1, 1));
    assert!(!song.reorder_track(0, 3));
    song.track_mut(a).unwrap().instrument = InstrumentId(5);
    song.track_mut(c).unwrap().instrument = InstrumentId(5);
    song.track_mut(b).unwrap().solo = true;
    assert_eq!(song.isolate_instrument(InstrumentId(5)), 2);
    assert!(!song.any_solo());
    assert!(song.track(b).unwrap().mute);
    assert!(!song.track(a).unwrap().mute);
}

#[test]
fn time_signature_changes_read_back() {
    let mut song = song();
    let waltz = TimeSignature::waltz();
    let six = TimeSignature::six_eight();
    song.set_time_signature_at(Tick(3840), waltz);
    song.set_time_signature_at(Tick(960), six);
    assert_eq!(song.time_signature_at(Tick(0)), TimeSignature::common());
    assert_eq!(song.time_signature_at(Tick(960)), six);
    assert_eq!(song.time_signature_at(Tick(5000)), waltz);
    // Replacing a change at the same tick keeps one entry.
    song.set_time_signature_at(Tick(960), waltz);
    assert_eq!(song.time_signature_changes().len(), 2);
    assert_eq!(song.time_signature_at(Tick(1000)), waltz);
}

#[test]
fn remove_unused_reports_what_it_dropped() {
    let mut song = song();
    let used = song.create_pattern(Duration(960));
    let unused = song.create_pattern(Duration(960));
    song.pattern_mut(unused).unwrap().set_name("Idle".to_string());
    let t1 = song.create_track("Kick".to_string());
    let _t2 = song.create_track("Spare".to_string());
    let t3 = song.create_track("Kick 2".to_string());
    song.track_mut(t1).unwrap().instrument = InstrumentId(4);
    song.track_mut(t3).unwrap().instrument = InstrumentId(4);
    song.place_pattern(used, t1, Tick(0));
    song.place_pattern(used, t3, Tick(0));
    let (patterns, tracks, instruments) = song.remove_unused();
    assert_eq!(patterns, vec!["Idle".to_string()]);
    assert_eq!(tracks, vec!["Spare".to_string()]);
    assert_eq!(instruments, vec![InstrumentId(4)]);
    assert_eq!(song.pattern_count(), 1);
    assert_eq!(song.track_count(), 2);
}

#[test]
fn playhead_and_track_placements() {
    let mut song = song();
    let p = song.create_pattern(Duration(960));
    let t = song.create_track("T".to_string());
    let u = song.create_track("U".to_string());
    song.place_pattern(p, t, Tick(1000));
    song.place_pattern(p, u, Tick(5000));
    assert_eq!(song.pattern_playhead_for(p, Tick(1500)), Some(PatternTick(500)));
    assert_eq!(song.pattern_playhead_for(p, Tick(1960)), None);
    assert_eq!(song.pattern_playhead_for(PatternId(8), Tick(1500)), None);
    assert_eq!(song.placements_on_track(u).len(), 1);
    // A length override moves the end.
    assert!(song.set_placement_length(p, t, Tick(1000), Some(Duration(2000))));
    assert_eq!(song.pattern_playhead_for(p, Tick(2500)), Some(PatternTick(1500)));
    assert!(song.remove_placement(p, t, Tick(1000)));
    assert!(!song.remove_placement(p, t, Tick(1000)));
    assert_eq!(song.calculate_length().0, 5960);
}

#[test]
fn moved_placement_lands_among_equal_starts_by_its_old_index() {
    let mut song = song();
    let p = song.create_pattern(Duration(10));
    let t1 = song.create_track("1".to_string());
    let t2 = song.create_track("2".to_string());
    let t3 = song.create_track("3".to_string());
    song.place_pattern(p, t1, Tick(0));
    song.place_pattern(p, t2, Tick(100));
    song.place_pattern(p, t3, Tick(100));
    // The first placement moves to 100: it keeps its place ahead of the others.
    assert!(song.move_placement(p, t1, Tick(0), t1, Tick(100)));
    let order: Vec<TrackId> = song.arrangement().iter().map(|a| a.track_id).collect();
    assert_eq!(order, vec![t1, t2, t3]);
    let pl = PatternPlacement::new(p, t2, Tick(50), ());
    assert!(song.insert_placement(pl));
    assert_eq!(song.arrangement()[0].start, Tick(50));
    assert_eq!(pl.end(Duration(10)), Tick(60));
    assert_eq!(pl.effective_length(Duration(10)), Duration(10));
}

#[test]
fn place_then_remove_restores_the_arrangement() {
    let mut song = song();
    let p = song.create_pattern(Duration(960));
    let t = song.create_track("t".to_string());
    assert!(song.place_pattern(p, t, Tick(0)));
    assert!(song.place_pattern(p, t, Tick(1920)));
    let before: Vec<(u64, u16)> = song.arrangement().iter().map(|x| (x.start.0, x.track_id.0)).collect();
    assert!(song.place_pattern(p, t, Tick(960)));
    assert!(song.remove_placement(p, t, Tick(960)));
    let after: Vec<(u64, u16)> = song.arrangement().iter().map(|x| (x.start.0, x.track_id.0)).collect();
    assert_eq!(before, after);
}

#[test]
fn reorder_back_restores_the_track_order() {
    let mut song = song();
    let a = song.create_track("a".to_string());
    let b = song.create_track("b".to_string());
    let c = song.create_track("c".to_string());
    assert!(song.reorder_track(0, 2));
    let moved: Vec<TrackId> = song.tracks().iter().map(|t| t.id).collect();
    assert_eq!(moved, vec![b, c, a]);
    assert!(song.reorder_track(2, 0));
    let back: Vec<TrackId> = song.tracks().iter().map(|t| t.id).collect();
    assert_eq!(back, vec![a, b, c]);
}

#[test]
fn test_song_creation() {
    let song: Song<(), (), ()> = Song::new("Test Song".to_string(), ()).with_author("Test Author".to_string());

    assert_eq!(song.name(), "Test Song");
    assert_eq!(song.author(), "Test Author");
}
