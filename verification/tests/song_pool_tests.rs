use synth_sequencer::ids::{ModNodeId, NoteGraphId, NoteModuleId, TrackId};
use synth_sequencer::mod_grid::{ModGraphScope, ModNodeKind};
use synth_sequencer::note_graph::{EuclideanGenerator, NoteConnection, NoteModuleKind};
use synth_sequencer::song::Song;
use synth_sequencer::time::Duration;
use synth_sequencer::track::TrackColor;

type PoolSong = Song<(), &'static str, &'static str>;

fn song() -> PoolSong {
    Song::new("t".to_string(), ())
}

/// Add a 1 -> 2 chain to the pooled graph `gid`.
fn build_chain(song: &mut PoolSong, gid: NoteGraphId) {
    let g = song.note_graph_mut(gid).expect("graph");
    g.try_insert_node(NoteModuleId::new(1), NoteModuleKind::Humanize, "humanize").unwrap();
    g.try_insert_node(NoteModuleId::new(2), NoteModuleKind::Humanize, "humanize").unwrap();
    g.try_connect(NoteConnection::stream(NoteModuleId::new(1), NoteModuleId::new(2))).unwrap();
}

#[test]
fn note_graph_pool_crud_and_usage() {
    let mut song = song();
    let gid = song.create_note_graph("arp".to_string());
    assert_eq!(song.note_graphs().len(), 1);
    assert!(song.note_graph(gid).is_some());
    build_chain(&mut song, gid);
    let pid = song.create_pattern(Duration(960));
    song.pattern_mut(pid).unwrap().set_note_graph(Some(gid));
    assert_eq!(song.note_graph_usage(gid), 1);

    let removed = song.remove_note_graph(gid).expect("removed");
    assert_eq!(removed.id(), gid);
    assert_eq!(song.note_graph_usage(gid), 0);
    assert_eq!(song.pattern(pid).unwrap().note_graph(), None);
    assert!(song.note_graph(gid).is_none());
}

#[test]
fn dangling_note_graph_reference_resolves_to_none() {
    let mut song = song();
    let pid = song.create_pattern(Duration(960));
    song.pattern_mut(pid).unwrap().set_note_graph(Some(NoteGraphId::new(99)));
    assert!(song.note_graph(NoteGraphId::new(99)).is_none());
    assert_eq!(song.pattern(pid).unwrap().note_graph(), Some(NoteGraphId::new(99)));
}

#[test]
fn duplicate_pattern_keeps_the_note_graph_binding() {
    let mut song = song();
    let gid = song.create_note_graph("shared".to_string());
    let pid = song.create_pattern(Duration(960));
    song.pattern_mut(pid).unwrap().set_note_graph(Some(gid));
    let copy = song.duplicate_pattern(pid).expect("duplicates");
    assert_eq!(song.pattern(copy).unwrap().note_graph(), Some(gid), "the copy keeps the binding");
    assert_eq!(song.note_graph_usage(gid), 2, "usage counts both patterns");
}

#[test]
fn duplicate_note_graph_copies_everything_but_identity() {
    let mut song = song();
    let gid = song.create_note_graph("src".to_string());
    {
        let g = song.note_graph_mut(gid).unwrap();
        g.set_description("desc".to_string());
        g.set_color(Some(TrackColor::cyan()));
        g.try_insert_node(NoteModuleId::new(1), NoteModuleKind::Euclidean(EuclideanGenerator::default_generator()), "pulse")
            .unwrap();
        g.try_insert_node(NoteModuleId::new(2), NoteModuleKind::ProbabilityGate, "gate").unwrap();
        g.try_connect(NoteConnection::stream(NoteModuleId::new(1), NoteModuleId::new(2))).unwrap();
        g.rebuild_derived().unwrap();
    }

    let clone = song.duplicate_note_graph(gid).expect("source exists");
    let src = song.note_graph(gid).unwrap();

    assert_ne!(clone.id(), src.id());
    assert_eq!(clone.name(), "src copy");
    assert_eq!(clone.description(), src.description());
    assert_eq!(clone.color(), src.color());
    assert_eq!(clone.nodes().len(), src.nodes().len());
    for (a, b) in clone.nodes().iter().zip(src.nodes()) {
        assert_eq!((a.id, a.kind, a.config), (b.id, b.kind, b.config));
    }
    assert_eq!(clone.connections(), src.connections());
    assert_eq!(clone.processing_order(), src.processing_order());
    assert_eq!(song.note_graphs().len(), 2);
    assert!(song.duplicate_note_graph(NoteGraphId::new(999)).is_none());
}

#[test]
fn mod_graph_pool_crud_bumps_generation() {
    let mut song = song();
    assert_eq!(song.mod_grid_generation(), 0);

    let gid = song.create_mod_graph("wobble".to_string());
    assert!(song.mod_grid_generation() > 0);
    let after_create = song.mod_grid_generation();

    let t0 = song.create_track("lead".to_string());
    assert!(song.set_mod_graph_scope(gid, ModGraphScope::Track));
    assert!(song.assign_mod_graph(gid, &[t0]));
    assert!(song.mod_grid_generation() > after_create);
    assert_eq!(song.mod_graph_usage(gid), 1);

    // Assigning an unknown track id is filtered out.
    assert!(song.assign_mod_graph(gid, &[t0, TrackId(9999)]));
    assert_eq!(song.mod_graph(gid).unwrap().assigned_tracks(), &vec![t0]);

    // Switching back to Global clears assignments and reports one instance.
    assert!(song.set_mod_graph_scope(gid, ModGraphScope::Global));
    assert!(song.mod_graph(gid).unwrap().assigned_tracks().is_empty());
    assert_eq!(song.mod_graph_usage(gid), 1);

    {
        let g = song.mod_graph_mut(gid).unwrap();
        g.try_insert_node(ModNodeId::new(0), ModNodeKind::Module, "lfo").unwrap();
        g.try_insert_node(ModNodeId::new(1), ModNodeKind::Target, "volume").unwrap();
    }
    assert_eq!(song.mod_graph(gid).unwrap().nodes().len(), 2);
    let fresh = song.create_mod_graph("second".to_string());
    assert_ne!(fresh, gid);

    assert!(song.remove_mod_graph(gid).is_some());
    assert!(song.mod_graph(gid).is_none());
    assert_eq!(song.mod_graph_usage(gid), 0);
}

#[test]
fn assignment_keeps_each_existing_track_once_in_request_order() {
    let mut song = song();
    let a = song.create_track("a".to_string());
    let b = song.create_track("b".to_string());
    let gid = song.create_mod_graph("m".to_string());
    assert!(song.set_mod_graph_scope(gid, ModGraphScope::Track));
    assert!(song.assign_mod_graph(gid, &[b, TrackId(77), a, b, a]));
    assert_eq!(song.mod_graph(gid).unwrap().assigned_tracks(), &vec![b, a]);
    assert_eq!(song.mod_graph_usage(gid), 2);
    assert!(!song.assign_mod_graph(synth_sequencer::ids::ModGraphId::new(5), &[a]));
}

#[test]
fn duplicate_mod_graph_copies_scope_assignments_and_nodes() {
    let mut song = song();
    let t = song.create_track("lead".to_string());
    let gid = song.create_mod_graph("wobble".to_string());
    assert!(song.set_mod_graph_scope(gid, ModGraphScope::Track));
    assert!(song.assign_mod_graph(gid, &[t]));
    song.mod_graph_mut(gid).unwrap().try_insert_node(ModNodeId::new(0), ModNodeKind::Module, "lfo").unwrap();
    let before = song.mod_grid_generation();
    let copy = song.duplicate_mod_graph(gid).expect("source exists");
    assert_eq!(copy.name(), "wobble copy");
    assert_ne!(copy.id(), gid);
    assert_eq!(copy.scope(), ModGraphScope::Track);
    assert_eq!(copy.assigned_tracks(), &vec![t]);
    assert_eq!(copy.nodes().len(), 1);
    assert_eq!(copy.nodes()[0].config, "lfo");
    assert!(song.mod_grid_generation() != before);
    assert_eq!(song.mod_graphs().len(), 2);
    assert!(song.duplicate_mod_graph(synth_sequencer::ids::ModGraphId::new(42)).is_none());
}

#[test]
fn inserted_graph_with_taken_id_is_refused_and_ids_stay_ahead() {
    let mut song = song();
    let gid = song.create_note_graph("a".to_string());
    let dup = synth_sequencer::note_graph::NoteGraph::new(gid, "b".to_string());
    assert!(!song.insert_note_graph(dup));
    let restored = synth_sequencer::note_graph::NoteGraph::new(NoteGraphId::new(10), "c".to_string());
    assert!(song.insert_note_graph(restored));
    let next = song.create_note_graph("d".to_string());
    assert_eq!(next, NoteGraphId::new(11));
}

#[test]
fn rebuild_note_graphs_settles_each_graph() {
    let mut song = song();
    let gid = song.create_note_graph("g".to_string());
    build_chain(&mut song, gid);
    song.rebuild_note_graphs();
    let g = song.note_graph(gid).unwrap();
    assert_eq!(g.processing_order(), &vec![NoteModuleId::new(1), NoteModuleId::new(2)]);
    let before = song.mod_grid_generation();
    song.rebuild_mod_graphs();
    assert!(song.mod_grid_generation() != before);
}

#[test]
fn convert_rack_to_graph_chains_the_stages_and_binds_the_pattern() {
    let mut song = song();
    let pid = song.create_pattern(Duration(960));
    song.pattern_mut(pid).unwrap().set_name("Verse".to_string());
    let stages = vec![(NoteModuleKind::Arpeggiator, "arp"), (NoteModuleKind::Humanize, "humanize")];
    let gid = song.convert_rack_to_graph(pid, stages).expect("converted");
    assert_eq!(song.pattern(pid).unwrap().note_graph(), Some(gid));
    let g = song.note_graph(gid).unwrap();
    assert_eq!(g.name(), "Verse FX");
    assert_eq!(g.nodes().len(), 2);
    assert_eq!((g.nodes()[0].id, g.nodes()[0].config), (NoteModuleId::new(1), "arp"));
    assert_eq!((g.nodes()[1].id, g.nodes()[1].config), (NoteModuleId::new(2), "humanize"));
    assert_eq!(g.connections(), &vec![NoteConnection::stream(NoteModuleId::new(1), NoteModuleId::new(2))]);
    assert_eq!(g.processing_order(), &vec![NoteModuleId::new(1), NoteModuleId::new(2)]);

    // A bound pattern, a missing pattern and an empty rack convert nothing.
    assert!(song.convert_rack_to_graph(pid, vec![(NoteModuleKind::Humanize, "h")]).is_none());
    assert!(song.convert_rack_to_graph(synth_sequencer::ids::PatternId::new(7), vec![(NoteModuleKind::Humanize, "h")]).is_none());
    let other = song.create_pattern(Duration(960));
    assert!(song.convert_rack_to_graph(other, vec![]).is_none());
    assert_eq!(song.note_graphs().len(), 1);
}

#[test]
fn convert_rack_to_graph_names_an_unnamed_rack_and_stops_at_a_refused_link() {
    let mut song = song();
    let pid = song.create_pattern(Duration(960));
    // An LFO has no stream ports: it is added, but the chain link into it is refused.
    let stages = vec![(NoteModuleKind::Humanize, "h"), (NoteModuleKind::NoteLfo, "lfo")];
    let gid = song.convert_rack_to_graph(pid, stages).expect("converted");
    let g = song.note_graph(gid).unwrap();
    assert_eq!(g.name(), "Rack");
    assert_eq!(g.nodes().len(), 2);
    assert!(g.connections().is_empty());
}

#[test]
fn cloned_song_keeps_patterns_tracks_and_pools() {
    let mut song = song();
    let pid = song.create_pattern(Duration(960));
    let gid = song.create_note_graph("g".to_string());
    build_chain(&mut song, gid);
    song.pattern_mut(pid).unwrap().set_note_graph(Some(gid));
    let t = song.create_track("lead".to_string());
    let mid = song.create_mod_graph("m".to_string());
    let copy = song.clone();
    assert_eq!(copy.pattern(pid).unwrap().note_graph(), Some(gid));
    assert_eq!(copy.track(t).unwrap().name, "lead");
    assert_eq!(copy.note_graph(gid).unwrap().connections(), song.note_graph(gid).unwrap().connections());
    assert_eq!(copy.mod_graph(mid).unwrap().name(), "m");
    assert_eq!(copy.mod_grid_generation(), song.mod_grid_generation());
}
