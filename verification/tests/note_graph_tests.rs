use synth_sequencer::ids::{NoteGraphId, NoteId, NoteModuleId, PatternId, TrackId};
use synth_sequencer::note_graph::{
    fallback_note_seed, lookback_reach, EuclideanGenerator, HostKey, NoteConnection, NoteDelay,
    NoteEventKey, NoteGraph, NoteGraphError, NoteModuleKind, NotePortType, Ratchet,
    MAX_NOTE_GRID_NODES,
};
use synth_sequencer::note_processor::{Chord, PitchClass, ScaleMask, ScaleQuantize, StrumDirection};
use synth_sequencer::pitch::{Pitch, Velocity};
use synth_sequencer::time::{Duration, PatternTick};

fn proc_node() -> NoteModuleKind {
    NoteModuleKind::Humanize
}

fn id(n: u32) -> NoteModuleId {
    NoteModuleId::new(n)
}

fn pitch(m: u8) -> Pitch {
    Pitch::new(m).unwrap()
}

/// Build a graph with `n` processor nodes (ids `1..=n`), unconnected.
fn graph_with_nodes(n: u32) -> NoteGraph<()> {
    let mut g = NoteGraph::new(NoteGraphId::new(0), "test".to_string());
    for i in 1..=n {
        g.try_insert_node(id(i), proc_node(), ()).expect("under cap");
    }
    g.rebuild_derived().expect("valid");
    g
}

#[test]
fn seed_helpers_are_deterministic_and_distinct() {
    let a = HostKey::from(PatternId::new(1));
    let b = HostKey::from(PatternId::new(2));
    assert_ne!(a.get(), b.get());
    assert_eq!(a.get(), HostKey::from(PatternId::new(1)).get());

    let k = NoteEventKey::new(NoteId(3), PatternTick(480), 1);
    assert_eq!(k.seed(), NoteEventKey::new(NoteId(3), PatternTick(480), 1).seed());
    assert_ne!(k.seed(), NoteEventKey::new(NoteId(3), PatternTick(480), 2).seed());
    assert_ne!(k.seed(), NoteEventKey::new(NoteId(4), PatternTick(480), 1).seed());

    let base = fallback_note_seed(PatternTick(10), pitch(60), 0);
    assert_ne!(base, fallback_note_seed(PatternTick(11), pitch(60), 0));
    assert_ne!(base, fallback_note_seed(PatternTick(10), pitch(61), 0));
    assert_ne!(base, fallback_note_seed(PatternTick(10), pitch(60), 1));
}

#[test]
fn host_keys_rotate_the_id() {
    assert_eq!(HostKey::from(PatternId::new(1)).get(), 2);
    assert_eq!(HostKey::from(NoteId(1)).get(), 1u64 << 21);
    assert_eq!(HostKey::from(TrackId(1)).get(), 1u64 << 43);
    assert_eq!(HostKey::from(NoteId(1u64 << 63)).get(), 1u64 << 20);
    assert_eq!(NoteEventKey::new(NoteId(1), PatternTick(2), 1).seed(), (1u64 << 32) ^ 2 ^ (1u64 << 48));
    assert_eq!(fallback_note_seed(PatternTick(7), pitch(1), 1), 7 ^ (1u64 << 32) ^ (1u64 << 40));
}

#[test]
fn empty_graph_is_valid_with_empty_order() {
    let mut g: NoteGraph<()> = NoteGraph::new(NoteGraphId::new(0), "empty".to_string());
    assert!(g.rebuild_derived().is_ok());
    assert!(g.processing_order().is_empty());
    assert_eq!(g.stream_output_node(), None);
}

#[test]
fn linear_chain_yields_topological_order() {
    let mut g = graph_with_nodes(3);
    g.try_connect(NoteConnection::stream(id(2), id(3))).unwrap();
    g.try_connect(NoteConnection::stream(id(1), id(2))).unwrap();
    assert_eq!(g.processing_order(), &vec![id(1), id(2), id(3)]);
    assert_eq!(g.stream_output_node(), Some(id(3)));
}

#[test]
fn split_stream_output_rejected() {
    let mut g = graph_with_nodes(3);
    g.try_connect(NoteConnection::stream(id(1), id(2))).unwrap();
    let err = g.try_connect(NoteConnection::stream(id(1), id(3))).unwrap_err();
    assert_eq!(err, NoteGraphError::DuplicateStreamOutput(id(1)));
    assert_eq!(g.connections().len(), 1);
    assert_eq!(g.processing_order().len(), 3);
}

#[test]
fn merge_stream_input_rejected() {
    let mut g = graph_with_nodes(3);
    g.try_connect(NoteConnection::stream(id(1), id(3))).unwrap();
    let err = g.try_connect(NoteConnection::stream(id(2), id(3))).unwrap_err();
    assert_eq!(err, NoteGraphError::DuplicateStreamInput(id(3)));
    assert_eq!(g.connections().len(), 1);
}

#[test]
fn tests_cycle_rejected() {
    let mut g = graph_with_nodes(2);
    g.try_connect(NoteConnection::stream(id(1), id(2))).unwrap();
    let err = g.try_connect(NoteConnection::stream(id(2), id(1))).unwrap_err();
    assert_eq!(err, NoteGraphError::Cycle);
    assert_eq!(g.connections().len(), 1);
}

#[test]
fn off_spine_stream_nodes_are_inert() {
    let mut g: NoteGraph<()> = NoteGraph::new(NoteGraphId::new(6), "spine+loose".to_string());
    g.try_insert_node(
        id(1),
        NoteModuleKind::ScaleQuantize(ScaleQuantize { root: PitchClass::new(0), mask: ScaleMask::major() }),
        (),
    )
    .unwrap();
    g.try_insert_node(id(2), proc_node(), ()).unwrap();
    g.try_connect(NoteConnection::stream(id(1), id(2))).unwrap();
    g.try_insert_node(
        id(3),
        NoteModuleKind::Euclidean(EuclideanGenerator {
            steps: 4,
            pulses: 4,
            rotation: 0,
            step_len: Duration(100),
            pitch: pitch(72),
            velocity: Velocity::mf(),
        }),
        (),
    )
    .unwrap();
    assert_eq!(g.stream_spine(), &vec![id(1), id(2)], "longest chain wins");
    assert_eq!(g.stream_output_node(), Some(id(2)));
    assert!(!g.stream_head_is_generator());

    g.try_connect(NoteConnection::stream(id(3), id(1))).unwrap();
    assert_eq!(g.stream_spine(), &vec![id(3), id(1), id(2)]);
    assert!(g.stream_head_is_generator());
    assert_eq!(g.max_walk_tail(), 0);
}

#[test]
fn sanitize_repairs_legacy_duplicate_and_double_fed_edges() {
    let mut g: NoteGraph<()> = NoteGraph::new(NoteGraphId::new(5), "legacy".to_string());
    g.try_insert_node(id(1), NoteModuleKind::NoteLfo, ()).unwrap();
    g.try_insert_node(id(2), NoteModuleKind::StepLfo, ()).unwrap();
    g.try_insert_node(id(3), NoteModuleKind::ProbabilityGate, ()).unwrap();
    g.try_insert_node(id(4), proc_node(), ()).unwrap();
    g.set_connections(vec![
        NoteConnection::stream(id(3), id(4)),
        NoteConnection::stream(id(3), id(4)),
        NoteConnection::value(id(1), id(3), 0),
        NoteConnection::value(id(2), id(3), 0),
    ]);
    assert!(g.rebuild_derived().is_err(), "legacy shape must be invalid");

    g.sanitize_connections();
    assert!(g.rebuild_derived().is_ok(), "sanitized graph validates");
    assert_eq!(
        g.connections(),
        &vec![NoteConnection::stream(id(3), id(4)), NoteConnection::value(id(2), id(3), 0),]
    );
}

#[test]
fn duplicate_connection_rejected() {
    let mut g = graph_with_nodes(2);
    g.try_connect(NoteConnection::stream(id(1), id(2))).unwrap();
    let err = g.try_connect(NoteConnection::stream(id(1), id(2))).unwrap_err();
    assert_eq!(err, NoteGraphError::DuplicateConnection(id(1), id(2)));
    assert_eq!(g.connections().len(), 1);
}

#[test]
fn second_value_source_into_same_input_rejected() {
    let mut g: NoteGraph<()> = NoteGraph::new(NoteGraphId::new(4), "mods".to_string());
    g.try_insert_node(id(1), NoteModuleKind::NoteLfo, ()).unwrap();
    g.try_insert_node(id(2), NoteModuleKind::StepLfo, ()).unwrap();
    g.try_insert_node(id(3), NoteModuleKind::ProbabilityGate, ()).unwrap();
    g.try_connect(NoteConnection::value(id(1), id(3), 0)).unwrap();
    let err = g.try_connect(NoteConnection::value(id(2), id(3), 0)).unwrap_err();
    assert_eq!(err, NoteGraphError::DuplicateValueInput(id(3), 0));
    assert_eq!(g.connections().len(), 1);
}

#[test]
fn unknown_node_rejected() {
    let mut g = graph_with_nodes(1);
    let err = g.try_connect(NoteConnection::stream(id(1), id(99))).unwrap_err();
    assert_eq!(err, NoteGraphError::UnknownNode(id(99)));
    assert!(g.connections().is_empty());
}

#[test]
fn value_edge_endpoint_validation() {
    let mut g: NoteGraph<()> = NoteGraph::new(NoteGraphId::new(4), "mod".to_string());
    g.try_insert_node(id(1), NoteModuleKind::NoteLfo, ()).unwrap();
    g.try_insert_node(id(2), NoteModuleKind::ProbabilityGate, ()).unwrap();
    g.try_insert_node(id(3), proc_node(), ()).unwrap();

    g.try_connect(NoteConnection::value(id(1), id(2), 0)).unwrap();
    assert_eq!(
        g.try_connect(NoteConnection::value(id(3), id(2), 0)),
        Err(NoteGraphError::NotValueSource(id(3)))
    );
    assert_eq!(
        g.try_connect(NoteConnection::value(id(1), id(2), 1)),
        Err(NoteGraphError::InvalidValueInput(id(2), 1))
    );
    assert_eq!(
        g.try_connect(NoteConnection::value(id(1), id(3), 0)),
        Err(NoteGraphError::InvalidValueInput(id(3), 0))
    );
}

#[test]
fn next_module_id_fills_gaps_and_avoids_collisions() {
    let mut g: NoteGraph<()> = NoteGraph::new(NoteGraphId::new(8), "alloc".to_string());
    assert_eq!(g.next_module_id(), id(0));
    g.try_insert_node(id(0), proc_node(), ()).unwrap();
    g.try_insert_node(id(1), proc_node(), ()).unwrap();
    assert_eq!(g.next_module_id(), id(2));
    g.remove_node(id(0));
    assert_eq!(g.next_module_id(), id(0));
    g.try_insert_node(NoteModuleId::new(u32::MAX), proc_node(), ()).unwrap();
    assert_eq!(g.next_module_id(), id(0));
}

#[test]
fn stream_edge_requires_stream_ports() {
    let mut g: NoteGraph<()> = NoteGraph::new(NoteGraphId::new(4), "spine".to_string());
    g.try_insert_node(id(1), proc_node(), ()).unwrap();
    g.try_insert_node(id(2), NoteModuleKind::NoteLfo, ()).unwrap();
    assert_eq!(
        g.try_connect(NoteConnection::stream(id(1), id(2))),
        Err(NoteGraphError::InvalidStreamEndpoint(id(2)))
    );
    assert_eq!(
        g.try_connect(NoteConnection::stream(id(2), id(1))),
        Err(NoteGraphError::InvalidStreamEndpoint(id(2)))
    );
    assert!(g.connections().is_empty());
}

#[test]
fn replacing_node_rolls_back_when_it_invalidates_an_edge() {
    let mut g: NoteGraph<&'static str> = NoteGraph::new(NoteGraphId::new(6), "replace".to_string());
    g.try_insert_node(id(1), NoteModuleKind::NoteLfo, "lfo").unwrap();
    g.try_insert_node(id(2), NoteModuleKind::ProbabilityGate, "gate").unwrap();
    g.try_connect(NoteConnection::value(id(1), id(2), 0)).unwrap();
    let before_nodes = g.nodes().clone();
    let before_order = g.processing_order().clone();

    assert_eq!(
        g.try_insert_node(id(1), proc_node(), "humanize"),
        Err(NoteGraphError::NotValueSource(id(1)))
    );
    assert_eq!(g.nodes(), &before_nodes);
    assert_eq!(g.processing_order(), &before_order);
    assert!(matches!(g.nodes()[0].kind, NoteModuleKind::NoteLfo));
    assert_eq!(g.nodes()[0].config, "lfo");
}

#[test]
fn node_cap_enforced_but_replacement_allowed() {
    let mut g: NoteGraph<()> = NoteGraph::new(NoteGraphId::new(0), "cap".to_string());
    for i in 0..MAX_NOTE_GRID_NODES as u32 {
        g.try_insert_node(id(i), proc_node(), ()).expect("under cap");
    }
    assert_eq!(
        g.try_insert_node(id(MAX_NOTE_GRID_NODES as u32), proc_node(), ()),
        Err(NoteGraphError::NodeCapExceeded)
    );
    assert!(g.try_insert_node(id(0), proc_node(), ()).is_ok());
}

#[test]
fn max_strum_tail_extends_freeze_walk_for_strummed_chord() {
    let mut g: NoteGraph<()> = NoteGraph::new(NoteGraphId::new(1), "strum".to_string());
    g.try_insert_node(
        id(1),
        NoteModuleKind::Chord(Chord::major().with_strum(Duration(30), StrumDirection::Up)),
        (),
    )
    .expect("under cap");
    assert_eq!(g.max_strum_tail(), 60);
    assert_eq!(g.max_walk_tail(), 60);
    let mut g2: NoteGraph<()> = NoteGraph::new(NoteGraphId::new(2), "block".to_string());
    g2.try_insert_node(id(1), NoteModuleKind::Chord(Chord::major()), ()).expect("under cap");
    assert_eq!(g2.max_strum_tail(), 0);
}

#[test]
fn source_context_ignores_upstream_detection() {
    let arp = NoteModuleKind::Arpeggiator;
    let quant = NoteModuleKind::ScaleQuantize(ScaleQuantize {
        root: PitchClass::new(0),
        mask: ScaleMask::major(),
    });
    // quantize → arp: the arp consumes the quantize, no warning.
    let mut g: NoteGraph<()> = NoteGraph::new(NoteGraphId::new(1), "ok".to_string());
    g.try_insert_node(id(1), quant, ()).unwrap();
    g.try_insert_node(id(2), arp, ()).unwrap();
    g.try_connect(NoteConnection::stream(id(1), id(2))).unwrap();
    assert!(!g.source_context_ignores_upstream(id(2)));
    // humanize → arp: the arp ignores the humanize.
    let mut h: NoteGraph<()> = NoteGraph::new(NoteGraphId::new(2), "warn".to_string());
    h.try_insert_node(id(1), proc_node(), ()).unwrap();
    h.try_insert_node(id(2), arp, ()).unwrap();
    h.try_connect(NoteConnection::stream(id(1), id(2))).unwrap();
    assert!(h.source_context_ignores_upstream(id(2)));
    // The humanize itself is not a source-context node.
    assert!(!h.source_context_ignores_upstream(id(1)));
}

#[test]
fn remove_node_drops_edges_and_keeps_the_graph_valid() {
    let mut g = graph_with_nodes(3);
    g.try_connect(NoteConnection::stream(id(1), id(2))).unwrap();
    g.try_connect(NoteConnection::stream(id(2), id(3))).unwrap();
    assert_eq!(g.remove_node(id(2)), Some(()));
    assert!(g.connections().is_empty());
    assert_eq!(g.processing_order(), &vec![id(1), id(3)]);
    assert_eq!(g.stream_spine(), &vec![id(1)]);
    assert_eq!(g.remove_node(id(2)), None);
}

#[test]
fn euclidean_onsets_follow_the_bresenham_pattern() {
    let e = EuclideanGenerator {
        steps: 8,
        pulses: 4,
        rotation: 0,
        step_len: Duration(100),
        pitch: pitch(60),
        velocity: Velocity::mf(),
    };
    let onsets: Vec<u32> = (0..800).filter(|&t| e.is_onset(PatternTick(t))).collect();
    assert_eq!(onsets, vec![0, 200, 400, 600]);
    let silent = EuclideanGenerator { steps: 0, ..e };
    assert!(!silent.is_onset(PatternTick(0)));
    let d = EuclideanGenerator::default();
    assert_eq!((d.steps, d.pulses, d.step_len.0), (16, 4, 240));
}

#[test]
fn timing_tails_match_the_reachable_lookback() {
    assert_eq!(lookback_reach(3, 480), 1440);
    assert_eq!(lookback_reach(100, 1000), 7000);
    assert_eq!(lookback_reach(5, 0), 0);
    assert_eq!(lookback_reach(5, 8000), 0);
    assert_eq!(NoteDelay { delay_ticks: Duration(480), repeats: 3 }.delay_tail(), 1440);
    assert_eq!(NoteDelay { delay_ticks: Duration(100), repeats: 200 }.delay_tail(), 1600);
    assert_eq!(Ratchet { sub_ticks: Duration(120), count: 4 }.ratchet_tail(), 360);
    assert_eq!(Ratchet { sub_ticks: Duration(120), count: 0 }.ratchet_tail(), 0);
    let mut g: NoteGraph<()> = NoteGraph::new(NoteGraphId::new(3), "timing".to_string());
    g.try_insert_node(id(1), NoteModuleKind::NoteDelay(NoteDelay::default()), ()).unwrap();
    g.try_insert_node(id(2), NoteModuleKind::Ratchet(Ratchet::default()), ()).unwrap();
    assert_eq!(g.max_delay_tail(), 1440);
}

#[test]
fn port_kinds() {
    assert!(NotePortType::NoteStream.is_stream());
    assert!(!NotePortType::Value.is_stream());
    assert!(!NoteConnection::gate(id(1), id(2), 0).port.is_stream());
    assert_eq!(NoteModuleKind::ProbabilityGate.value_input_count(), 1);
    assert_eq!(NoteModuleKind::NoteScriptTransform.value_input_count(), 4);
    assert!(NoteModuleKind::NoteLfo.is_value_source());
    assert!(!NoteModuleKind::Euclidean(EuclideanGenerator::default()).has_stream_input());
    assert_eq!(NoteModuleKind::Ratchet(Ratchet::default()).kind(), "ratchet");
}
