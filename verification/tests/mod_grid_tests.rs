use synth_sequencer::ids::{ModGraphId, ModNodeId};
use synth_sequencer::mod_grid::{
    ModConnection, ModGraph, ModGraphError, ModNodeKind, MAX_MOD_GRID_NODES, TARGET_INPUT_PORT,
};

fn module_node() -> ModNodeKind {
    ModNodeKind::Module
}

fn target_node() -> ModNodeKind {
    ModNodeKind::Target
}

#[test]
fn next_node_id_fills_gaps() {
    let mut g: ModGraph<&'static str> = ModGraph::new(ModGraphId::new(0), "g".to_string());
    g.try_insert_node(ModNodeId::new(0), module_node(), "lfo").unwrap();
    g.try_insert_node(ModNodeId::new(2), module_node(), "lfo").unwrap();
    assert_eq!(g.next_node_id(), ModNodeId::new(1));
}

#[test]
fn node_cap_enforced() {
    let mut g: ModGraph<&'static str> = ModGraph::new(ModGraphId::new(0), "g".to_string());
    for i in 0..MAX_MOD_GRID_NODES as u32 {
        g.try_insert_node(ModNodeId::new(i), module_node(), "lfo").unwrap();
    }
    let err = g.try_insert_node(ModNodeId::new(999), module_node(), "lfo").unwrap_err();
    assert_eq!(err, ModGraphError::NodeCapExceeded);
    g.try_insert_node(ModNodeId::new(0), module_node(), "mseg").unwrap();
}

#[test]
fn connect_validates_endpoints_and_source() {
    let mut g: ModGraph<&'static str> = ModGraph::new(ModGraphId::new(0), "g".to_string());
    g.try_insert_node(ModNodeId::new(0), module_node(), "lfo").unwrap();
    g.try_insert_node(ModNodeId::new(1), target_node(), "master").unwrap();
    assert_eq!(
        g.try_connect(ModConnection::new(ModNodeId::new(0), "out", ModNodeId::new(7), TARGET_INPUT_PORT))
            .unwrap_err(),
        ModGraphError::UnknownNode(ModNodeId::new(7))
    );
    g.try_connect(ModConnection::new(ModNodeId::new(0), "out", ModNodeId::new(1), TARGET_INPUT_PORT))
        .unwrap();
    assert_eq!(
        g.try_connect(ModConnection::new(ModNodeId::new(1), "out", ModNodeId::new(0), "rate_cv"))
            .unwrap_err(),
        ModGraphError::NotASource(ModNodeId::new(1))
    );
}

#[test]
fn duplicate_input_rejected() {
    let mut g: ModGraph<&'static str> = ModGraph::new(ModGraphId::new(0), "g".to_string());
    g.try_insert_node(ModNodeId::new(0), module_node(), "lfo").unwrap();
    g.try_insert_node(ModNodeId::new(1), module_node(), "lfo").unwrap();
    g.try_insert_node(ModNodeId::new(2), target_node(), "master").unwrap();
    g.try_connect(ModConnection::new(ModNodeId::new(0), "out", ModNodeId::new(2), TARGET_INPUT_PORT))
        .unwrap();
    assert_eq!(
        g.try_connect(ModConnection::new(ModNodeId::new(1), "out", ModNodeId::new(2), TARGET_INPUT_PORT))
            .unwrap_err(),
        ModGraphError::DuplicateInput(ModNodeId::new(2), TARGET_INPUT_PORT.to_string())
    );
}

#[test]
fn mod_grid_cycle_rejected() {
    let mut g: ModGraph<&'static str> = ModGraph::new(ModGraphId::new(0), "g".to_string());
    g.try_insert_node(ModNodeId::new(0), module_node(), "lfo").unwrap();
    g.try_insert_node(ModNodeId::new(1), module_node(), "lfo").unwrap();
    g.try_connect(ModConnection::new(ModNodeId::new(0), "out", ModNodeId::new(1), "rate_cv"))
        .unwrap();
    assert_eq!(
        g.try_connect(ModConnection::new(ModNodeId::new(1), "out", ModNodeId::new(0), "rate_cv"))
            .unwrap_err(),
        ModGraphError::Cycle
    );
}

#[test]
fn remove_node_drops_cables() {
    let mut g: ModGraph<&'static str> = ModGraph::new(ModGraphId::new(0), "g".to_string());
    g.try_insert_node(ModNodeId::new(0), module_node(), "lfo").unwrap();
    g.try_insert_node(ModNodeId::new(1), target_node(), "master").unwrap();
    g.try_connect(ModConnection::new(ModNodeId::new(0), "out", ModNodeId::new(1), TARGET_INPUT_PORT))
        .unwrap();
    g.remove_node(ModNodeId::new(0));
    assert!(g.connections().is_empty());
    assert_eq!(g.node_count(), 1);
}

#[test]
fn duplicate_cable_and_disconnect() {
    let mut g: ModGraph<()> = ModGraph::new(ModGraphId::new(1), "d".to_string());
    g.try_insert_node(ModNodeId::new(3), ModNodeKind::Macro, ()).unwrap();
    g.try_insert_node(ModNodeId::new(4), ModNodeKind::Target, ()).unwrap();
    let cable = ModConnection::new(ModNodeId::new(3), "out", ModNodeId::new(4), "in");
    g.try_connect(cable.clone()).unwrap();
    assert_eq!(
        g.try_connect(cable.clone()).unwrap_err(),
        ModGraphError::DuplicateConnection(ModNodeId::new(3), "out".to_string(), ModNodeId::new(4), "in".to_string())
    );
    assert!(g.validate().is_ok());
    assert!(g.disconnect(&cable));
    assert!(!g.disconnect(&cable));
    assert!(g.connections().is_empty());
    assert_eq!(g.nodes()[0].id, ModNodeId::new(3));
    assert_eq!(ModNodeKind::MidiCc.kind(), "midi_cc");
    assert!(ModNodeKind::AudioTap.is_source());
}
