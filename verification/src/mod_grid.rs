//! Mod Grid — pooled control-rate modulator graphs.
//!
//! A [`ModGraph`] is a project-level asset whose nodes produce control-rate
//! signals that write into the automation target space. This module is the
//! data model plus its editing helpers: every edit is validated, and an edit
//! that would leave the graph invalid is rolled back, so a `ModGraph` is valid
//! at all times.
//!
//! The graph is generic over the per-node configuration `C`; what the editing
//! rules read of a node is its [`ModNodeKind`].
use vstd::prelude::*;

use crate::dag::{edges_within, is_acyclic, is_topological, kahn_order, strictly_ascending};
use crate::ids::{ModGraphId, ModNodeId, TrackId};
use crate::track::TrackColor;

verus! {

/// Hard cap on nodes in one graph.
pub const MAX_MOD_GRID_NODES: usize = 32;

/// The single input-port name a `Target` node exposes.
pub const TARGET_INPUT_PORT: &'static str = "in";

/// Where a mod graph runs and how "this track" targets resolve.
#[derive(Debug, Clone, Copy, PartialEq, Eq, Structural)]
pub enum ModGraphScope {
    /// Exactly one running instance, always on.
    Global,
    /// Pooled and assigned to zero or more tracks; one running instance per
    /// assignment.
    Track,
}

impl Default for ModGraphScope {
    fn default() -> (r: Self)
        ensures
            r == ModGraphScope::Global,
    {
        ModGraphScope::Global
    }
}

/// How a target contribution composes with the target's current value.
#[derive(Debug, Clone, Copy, PartialEq, Eq, Structural)]
pub enum CombineMode {
    /// `result = current + amount * source`, clamped to the target's range.
    Add,
}

impl Default for CombineMode {
    fn default() -> (r: Self)
        ensures
            r == CombineMode::Add,
    {
        CombineMode::Add
    }
}

/// Which transport-derived signal a [`TransportNode`] emits.
#[derive(Debug, Clone, Copy, PartialEq, Eq, Structural)]
pub enum TransportSource {
    /// Ramp 0→1 across each beat.
    BeatPhase,
    /// Ramp 0→1 across each bar.
    BarPhase,
    /// Current tempo, normalized against a nominal 20..300 BPM span.
    Tempo,
    /// Absolute song position in beats (unnormalized).
    PositionBeats,
}

impl Default for TransportSource {
    fn default() -> (r: Self)
        ensures
            r == TransportSource::BeatPhase,
    {
        TransportSource::BeatPhase
    }
}

/// A grid-native transport source node.
#[derive(Debug, Clone, Copy, PartialEq, Eq, Structural)]
pub struct TransportNode {
    pub source: TransportSource,
}

impl Default for TransportNode {
    fn default() -> (r: Self)
        ensures
            r.source == TransportSource::BeatPhase,
    {
        TransportNode { source: TransportSource::BeatPhase }
    }
}

/// A grid-native MIDI CC input source node.
#[derive(Debug, Clone, Copy, PartialEq, Eq, Structural)]
pub struct MidiCcNode {
    /// Controller number, `0..=127`.
    pub cc: u8,
    /// MIDI channel to listen on, or `None` for omni.
    pub channel: Option<u8>,
}

impl Default for MidiCcNode {
    fn default() -> (r: Self)
        ensures
            r.cc == 0,
            r.channel is None,
    {
        MidiCcNode { cc: 0, channel: None }
    }
}

/// What an [`AudioTapNode`] reads a pre-fader level from.
#[derive(Debug, Clone, Copy, PartialEq, Eq, Structural)]
pub enum AudioTapSource {
    /// A sequencer track's pre-fader instrument output.
    Track(TrackId),
    /// The master bus.
    Master,
}

/// A grid-native pre-fader level tap (source only; one-block latency).
#[derive(Debug, Clone, Copy, PartialEq, Eq, Structural)]
pub struct AudioTapNode {
    pub source: AudioTapSource,
}

/// The kind of a mod-graph node: a hosted module, one of the grid-native
/// sources, or a routing sink into the automation space.
#[derive(Debug, Clone, Copy, PartialEq, Eq, Structural)]
pub enum ModNodeKind {
    /// A hosted control-rate audio module (LFO, MSEG, envelope follower, …).
    Module,
    /// A song-level macro knob.
    Macro,
    /// A transport-derived source.
    Transport,
    /// A MIDI CC input source.
    MidiCc,
    /// A pre-fader level tap of a track or the master bus.
    AudioTap,
    /// A routing sink into an automation target.
    Target,
}

impl ModNodeKind {
    /// A short snake_case tag for the node kind.
    pub fn kind(&self) -> (s: &'static str)
        ensures
            s@ == match *self {
                ModNodeKind::Module => "module"@,
                ModNodeKind::Macro => "macro"@,
                ModNodeKind::Transport => "transport"@,
                ModNodeKind::MidiCc => "midi_cc"@,
                ModNodeKind::AudioTap => "audio_tap"@,
                ModNodeKind::Target => "target"@,
            },
    {
        match self {
            ModNodeKind::Module => "module",
            ModNodeKind::Macro => "macro",
            ModNodeKind::Transport => "transport",
            ModNodeKind::MidiCc => "midi_cc",
            ModNodeKind::AudioTap => "audio_tap",
            ModNodeKind::Target => "target",
        }
    }

    /// Whether this node writes into the automation space (i.e. is a sink).
    pub fn is_target(&self) -> (b: bool)
        ensures
            b == (*self == ModNodeKind::Target),
    {
        match self {
            ModNodeKind::Target => true,
            _ => false,
        }
    }

    /// Whether this node can drive a cable (every non-target node is a source).
    pub fn is_source(&self) -> (b: bool)
        ensures
            b == (*self != ModNodeKind::Target),
    {
        !self.is_target()
    }
}

/// One node of a mod graph: its id, its kind and its configuration.
#[derive(Debug, Clone, PartialEq)]
pub struct ModNode<C> {
    pub id: ModNodeId,
    pub kind: ModNodeKind,
    pub config: C,
}

/// A control-signal cable between two nodes' named ports.
#[derive(Debug, Clone, PartialEq, Eq)]
pub struct ModConnection {
    /// Source node.
    pub from: ModNodeId,
    /// Output port name on the source node (e.g. `"out"`).
    pub from_port: String,
    /// Destination node.
    pub to: ModNodeId,
    /// Input port name on the destination node (e.g. `"in"`, `"rate_cv"`).
    pub to_port: String,
}

impl ModConnection {
    /// Build a cable between two named ports.
    pub fn new(from: ModNodeId, from_port: &str, to: ModNodeId, to_port: &str) -> (c: Self)
        ensures
            c.from == from,
            c.from_port@ == from_port@,
            c.to == to,
            c.to_port@ == to_port@,
    {
        ModConnection { from, from_port: from_port.to_owned(), to, to_port: to_port.to_owned() }
    }
}

/// Errors from editing / validating a [`ModGraph`].
#[derive(Debug, Clone, PartialEq, Eq)]
pub enum ModGraphError {
    /// Adding a node would exceed [`MAX_MOD_GRID_NODES`].
    NodeCapExceeded,
    /// A connection references a node id not present in the graph.
    UnknownNode(ModNodeId),
    /// A cable originates at a `Target` node (sinks have no output).
    NotASource(ModNodeId),
    /// The exact same (node, port) → (node, port) cable already exists.
    DuplicateConnection(ModNodeId, String, ModNodeId, String),
    /// A second cable feeds an input port that already has a source.
    DuplicateInput(ModNodeId, String),
    /// The connection set would create a cycle.
    Cycle,
}

// ----------------------------------------------------------------------------
// The model: validation of a node list and a cable list
// ----------------------------------------------------------------------------

/// The node ids, in list order.
pub open spec fn mod_node_ids<C>(nodes: Seq<ModNode<C>>) -> Seq<u32> {
    nodes.map_values(|n: ModNode<C>| n.id.0)
}

/// The cables as (source, target) id pairs.
pub open spec fn cable_edges(conns: Seq<ModConnection>) -> Seq<(u32, u32)> {
    conns.map_values(|c: ModConnection| (c.from.0, c.to.0))
}

/// The node list is ordered by strictly ascending id.
pub open spec fn mod_nodes_sorted<C>(nodes: Seq<ModNode<C>>) -> bool {
    forall|i: int, j: int| 0 <= i < j < nodes.len() ==> nodes[i].id.0 < nodes[j].id.0
}

/// Some node has this id.
pub open spec fn has_mod_node<C>(nodes: Seq<ModNode<C>>, id: ModNodeId) -> bool {
    exists|i: int| 0 <= i < nodes.len() && nodes[i].id == id
}

/// Some node with this id is a `Target`.
pub open spec fn is_target_node<C>(nodes: Seq<ModNode<C>>, id: ModNodeId) -> bool {
    exists|i: int| 0 <= i < nodes.len() && nodes[i].id == id && nodes[i].kind == ModNodeKind::Target
}

/// What is wrong with a cable's endpoints, checked in this order: an unknown
/// source, an unknown destination, a source that is a `Target`.
pub open spec fn endpoint_error<C>(nodes: Seq<ModNode<C>>, c: ModConnection) -> Option<ModGraphError> {
    if !has_mod_node(nodes, c.from) {
        Some(ModGraphError::UnknownNode(c.from))
    } else if !has_mod_node(nodes, c.to) {
        Some(ModGraphError::UnknownNode(c.to))
    } else if is_target_node(nodes, c.from) {
        Some(ModGraphError::NotASource(c.from))
    } else {
        None
    }
}

/// The first endpoint error among the cables from position `i` on.
pub open spec fn endpoint_error_from<C>(
    nodes: Seq<ModNode<C>>,
    conns: Seq<ModConnection>,
    i: int,
) -> Option<ModGraphError>
    decreases conns.len() - i,
{
    if i < 0 || i >= conns.len() {
        None
    } else {
        match endpoint_error(nodes, conns[i]) {
            Some(e) => Some(e),
            None => endpoint_error_from(nodes, conns, i + 1),
        }
    }
}

/// Two cables are the same (node, port) → (node, port) connection.
pub open spec fn same_cable(a: ModConnection, b: ModConnection) -> bool {
    a.from == b.from && a.from_port@ == b.from_port@ && a.to == b.to && a.to_port@ == b.to_port@
}

/// What is wrong with an earlier cable `a` and a later cable `b` together.
pub open spec fn clash(a: ModConnection, b: ModConnection) -> Option<ModGraphError> {
    if same_cable(a, b) {
        Some(ModGraphError::DuplicateConnection(a.from, a.from_port, a.to, a.to_port))
    } else if a.to == b.to && a.to_port@ == b.to_port@ {
        Some(ModGraphError::DuplicateInput(a.to, a.to_port))
    } else {
        None
    }
}

/// The first clash of cable `i` with a cable at position `j` or later.
pub open spec fn clash_from(conns: Seq<ModConnection>, i: int, j: int) -> Option<ModGraphError>
    decreases conns.len() - j,
{
    if j < 0 || j >= conns.len() || i < 0 || i >= conns.len() {
        None
    } else {
        match clash(conns[i], conns[j]) {
            Some(e) => Some(e),
            None => clash_from(conns, i, j + 1),
        }
    }
}

/// The first clashing pair (in lexicographic order of positions) whose
/// earlier cable is at position `i` or later.
pub open spec fn pair_error_from(conns: Seq<ModConnection>, i: int) -> Option<ModGraphError>
    decreases conns.len() - i,
{
    if i < 0 || i >= conns.len() {
        None
    } else {
        match clash_from(conns, i, i + 1) {
            Some(e) => Some(e),
            None => pair_error_from(conns, i + 1),
        }
    }
}

/// The outcome of validating a graph: the first endpoint error, else the
/// first clashing pair of cables, else a cycle, else success.
pub open spec fn mod_validation<C>(nodes: Seq<ModNode<C>>, conns: Seq<ModConnection>) -> Result<
    (),
    ModGraphError,
> {
    match endpoint_error_from(nodes, conns, 0) {
        Some(e) => Err(e),
        None => match pair_error_from(conns, 0) {
            Some(e) => Err(e),
            None => if is_acyclic(mod_node_ids(nodes), cable_edges(conns)) {
                Ok(())
            } else {
                Err(ModGraphError::Cycle)
            },
        },
    }
}

// ----------------------------------------------------------------------------
// Facts about the model
// ----------------------------------------------------------------------------

proof fn lemma_endpoint_none<C>(nodes: Seq<ModNode<C>>, conns: Seq<ModConnection>, i: int)
    requires
        0 <= i,
    ensures
        endpoint_error_from(nodes, conns, i) is None <==> forall|k: int|
            i <= k < conns.len() ==> #[trigger] endpoint_error(nodes, conns[k]) is None,
    decreases conns.len() - i,
{
    if i < conns.len() {
        lemma_endpoint_none(nodes, conns, i + 1);
    }
}

proof fn lemma_clash_none(conns: Seq<ModConnection>, i: int, j: int)
    requires
        0 <= i < conns.len(),
        0 <= j,
    ensures
        clash_from(conns, i, j) is None <==> forall|k: int|
            j <= k < conns.len() ==> #[trigger] clash(conns[i], conns[k]) is None,
    decreases conns.len() - j,
{
    if j < conns.len() {
        lemma_clash_none(conns, i, j + 1);
    }
}

proof fn lemma_pair_none(conns: Seq<ModConnection>, i: int)
    requires
        0 <= i,
    ensures
        pair_error_from(conns, i) is None <==> forall|a: int, b: int|
            i <= a < b < conns.len() ==> #[trigger] clash(conns[a], conns[b]) is None,
    decreases conns.len() - i,
{
    if i < conns.len() {
        lemma_pair_none(conns, i + 1);
        lemma_clash_none(conns, i, i + 1);
        if pair_error_from(conns, i) is None {
            assert forall|a: int, b: int|
                i <= a < b < conns.len() implies #[trigger] clash(conns[a], conns[b]) is None by {
                if a == i {
                    assert(clash_from(conns, i, i + 1) is None);
                }
            }
        }
    }
}

proof fn lemma_has_node_ids<C>(nodes: Seq<ModNode<C>>, id: ModNodeId)
    ensures
        has_mod_node(nodes, id) <==> mod_node_ids(nodes).contains(id.0),
{
    if has_mod_node(nodes, id) {
        let i = choose|i: int| 0 <= i < nodes.len() && nodes[i].id == id;
        assert(mod_node_ids(nodes)[i] == id.0);
    }
    if mod_node_ids(nodes).contains(id.0) {
        let i = choose|i: int| 0 <= i < nodes.len() && mod_node_ids(nodes)[i] == id.0;
        assert(nodes[i].id == id);
    }
}

/// Removing cables (keeping the rest in order) and nodes that no remaining
/// cable touches never makes a valid graph invalid: no endpoint can go
/// missing, no clash can appear, and no cycle can form.
pub proof fn lemma_mod_subgraph_valid<C>(
    nodes: Seq<ModNode<C>>,
    conns: Seq<ModConnection>,
    sub_nodes: Seq<ModNode<C>>,
    sub_conns: Seq<ModConnection>,
    keep: Seq<int>,
)
    requires
        mod_validation(nodes, conns) is Ok,
        keep.len() == sub_conns.len(),
        forall|k: int| 0 <= k < keep.len() ==> 0 <= #[trigger] keep[k] < conns.len(),
        forall|k: int, l: int| 0 <= k < l < keep.len() ==> keep[k] < keep[l],
        forall|k: int| 0 <= k < keep.len() ==> sub_conns[k] == conns[#[trigger] keep[k]],
        forall|i: int| 0 <= i < sub_nodes.len() ==> exists|j: int|
            0 <= j < nodes.len() && nodes[j] == #[trigger] sub_nodes[i],
        forall|k: int|
            0 <= k < sub_conns.len() ==> has_mod_node(sub_nodes, #[trigger] sub_conns[k].from)
                && has_mod_node(sub_nodes, sub_conns[k].to),
        mod_nodes_sorted(nodes),
    ensures
        mod_validation(sub_nodes, sub_conns) is Ok,
{
    lemma_endpoint_none(nodes, conns, 0);
    lemma_endpoint_none(sub_nodes, sub_conns, 0);
    lemma_pair_none(conns, 0);
    lemma_pair_none(sub_conns, 0);
    assert forall|k: int| 0 <= k < sub_conns.len() implies #[trigger] endpoint_error(
        sub_nodes,
        sub_conns[k],
    ) is None by {
        let c = sub_conns[k];
        assert(endpoint_error(nodes, conns[keep[k]]) is None);
        if is_target_node(sub_nodes, c.from) {
            let i = choose|i: int|
                0 <= i < sub_nodes.len() && sub_nodes[i].id == c.from && sub_nodes[i].kind
                    == ModNodeKind::Target;
            let j = choose|j: int| 0 <= j < nodes.len() && nodes[j] == sub_nodes[i];
            assert(is_target_node(nodes, c.from));
        }
    }
    assert forall|a: int, b: int| 0 <= a < b < sub_conns.len() implies #[trigger] clash(
        sub_conns[a],
        sub_conns[b],
    ) is None by {
        assert(clash(conns[keep[a]], conns[keep[b]]) is None);
    }
    let ids = mod_node_ids(nodes);
    let edges = cable_edges(conns);
    let sub_ids = mod_node_ids(sub_nodes);
    let sub_edges = cable_edges(sub_conns);
    let order = choose|order: Seq<u32>| is_topological(ids, edges, order);
    assert(is_topological(sub_ids, sub_edges, order)) by {
        assert forall|k: int| 0 <= k < sub_ids.len() implies order.contains(#[trigger] sub_ids[k]) by {
            let j = choose|j: int| 0 <= j < nodes.len() && nodes[j] == sub_nodes[k];
            assert(ids[j] == sub_ids[k]);
        }
        assert forall|e: int, j: int|
            #![trigger sub_edges[e], order[j]]
            0 <= e < sub_edges.len() && 0 <= j < order.len() && order[j] == sub_edges[e].1 implies exists|
            i: int,
        | 0 <= i < j && order[i] == sub_edges[e].0 by {
            assert(sub_edges[e] == edges[keep[e]]);
            assert(order[j] == edges[keep[e]].1);
        }
    }
}

/// Position of the node with this id (meaningful when there is one).
pub open spec fn mod_node_index<C>(nodes: Seq<ModNode<C>>, id: ModNodeId) -> int {
    choose|i: int| 0 <= i < nodes.len() && nodes[i].id == id
}

/// The nodes as a map from id to node, the way the graph is addressed.
pub open spec fn mod_node_map<C>(nodes: Seq<ModNode<C>>) -> Map<ModNodeId, ModNode<C>> {
    Map::new(
        |id: ModNodeId| has_mod_node(nodes, id),
        |id: ModNodeId| nodes[mod_node_index(nodes, id)],
    )
}

/// Where a node with a new id goes in an id-ordered list: after every node
/// with a smaller id.
pub open spec fn mod_insert_pos<C>(nodes: Seq<ModNode<C>>, id: u32) -> int
    decreases nodes.len(),
{
    if nodes.len() == 0 {
        0
    } else if nodes.last().id.0 < id {
        nodes.len() as int
    } else {
        mod_insert_pos(nodes.drop_last(), id)
    }
}

/// The id-ordered node list with `node` inserted, replacing the node with
/// the same id if there is one.
pub open spec fn with_mod_node<C>(nodes: Seq<ModNode<C>>, node: ModNode<C>) -> Seq<ModNode<C>> {
    if has_mod_node(nodes, node.id) {
        nodes.update(mod_node_index(nodes, node.id), node)
    } else {
        nodes.insert(mod_insert_pos(nodes, node.id.0), node)
    }
}

/// The id-ordered node list without the node with this id.
pub open spec fn without_mod_node<C>(nodes: Seq<ModNode<C>>, id: ModNodeId) -> Seq<ModNode<C>> {
    if has_mod_node(nodes, id) {
        nodes.remove(mod_node_index(nodes, id))
    } else {
        nodes
    }
}

/// A cable touches this node.
pub open spec fn touches(c: ModConnection, id: ModNodeId) -> bool {
    c.from == id || c.to == id
}

/// The cables that do not touch node `id`, in order.
pub open spec fn cables_apart_from(conns: Seq<ModConnection>, id: ModNodeId) -> Seq<ModConnection>
    decreases conns.len(),
{
    if conns.len() == 0 {
        conns
    } else {
        let rest = cables_apart_from(conns.drop_last(), id);
        if touches(conns.last(), id) {
            rest
        } else {
            rest.push(conns.last())
        }
    }
}

/// The cables other than `target`, in order.
pub open spec fn cables_other_than(conns: Seq<ModConnection>, target: ModConnection) -> Seq<
    ModConnection,
>
    decreases conns.len(),
{
    if conns.len() == 0 {
        conns
    } else {
        let rest = cables_other_than(conns.drop_last(), target);
        if same_cable(conns.last(), target) {
            rest
        } else {
            rest.push(conns.last())
        }
    }
}

proof fn lemma_index_unique<C>(nodes: Seq<ModNode<C>>, i: int)
    requires
        mod_nodes_sorted(nodes),
        0 <= i < nodes.len(),
    ensures
        mod_node_index(nodes, nodes[i].id) == i,
        has_mod_node(nodes, nodes[i].id),
{
    let j = mod_node_index(nodes, nodes[i].id);
    assert(0 <= j < nodes.len() && nodes[j].id == nodes[i].id);
    if j < i {
        assert(nodes[j].id.0 < nodes[i].id.0);
    } else if j > i {
        assert(nodes[i].id.0 < nodes[j].id.0);
    }
}

proof fn lemma_insert_pos<C>(nodes: Seq<ModNode<C>>, id: u32, p: int)
    requires
        mod_nodes_sorted(nodes),
        0 <= p <= nodes.len(),
        forall|k: int| 0 <= k < p ==> nodes[k].id.0 < id,
        forall|k: int| p <= k < nodes.len() ==> nodes[k].id.0 > id,
    ensures
        mod_insert_pos(nodes, id) == p,
    decreases nodes.len(),
{
    if nodes.len() > 0 && p < nodes.len() {
        lemma_insert_pos(nodes.drop_last(), id, p);
    }
}

/// Inserting a node into an id-ordered list keeps it ordered, and as a map
/// it is the map updated at that id; removing one is the map without it.
pub proof fn lemma_node_map_edits<C>(nodes: Seq<ModNode<C>>, node: ModNode<C>, id: ModNodeId)
    requires
        mod_nodes_sorted(nodes),
    ensures
        mod_nodes_sorted(with_mod_node(nodes, node)),
        mod_node_map(with_mod_node(nodes, node)) == mod_node_map(nodes).insert(node.id, node),
        mod_nodes_sorted(without_mod_node(nodes, id)),
        mod_node_map(without_mod_node(nodes, id)) == mod_node_map(nodes).remove(id),
{
    lemma_with_node(nodes, node);
    lemma_without_node(nodes, id);
}

proof fn lemma_with_node<C>(nodes: Seq<ModNode<C>>, node: ModNode<C>)
    requires
        mod_nodes_sorted(nodes),
    ensures
        mod_nodes_sorted(with_mod_node(nodes, node)),
        mod_node_map(with_mod_node(nodes, node)) == mod_node_map(nodes).insert(node.id, node),
        has_mod_node(nodes, node.id) ==> with_mod_node(nodes, node).len() == nodes.len(),
        !has_mod_node(nodes, node.id) ==> with_mod_node(nodes, node).len() == nodes.len() + 1,
{
    let r = with_mod_node(nodes, node);
    if has_mod_node(nodes, node.id) {
        let i = mod_node_index(nodes, node.id);
        assert forall|a: int, b: int| 0 <= a < b < r.len() implies r[a].id.0 < r[b].id.0 by {
            assert(r[a].id == nodes[a].id);
            assert(r[b].id == nodes[b].id);
        }
        assert forall|k: int| 0 <= k < r.len() implies mod_node_index(r, #[trigger] r[k].id) == k by {
            lemma_index_unique(r, k);
        }
        assert forall|k: int| 0 <= k < nodes.len() implies mod_node_index(nodes, #[trigger] nodes[k].id) == k by {
            lemma_index_unique(nodes, k);
        }
        assert(mod_node_map(r) =~= mod_node_map(nodes).insert(node.id, node)) by {
            assert forall|x: ModNodeId| #[trigger] has_mod_node(r, x) <==> has_mod_node(nodes, x) || x == node.id by {
                if has_mod_node(r, x) {
                    let k = choose|k: int| 0 <= k < r.len() && r[k].id == x;
                    if k != i {
                        assert(nodes[k].id == x);
                    }
                }
                if has_mod_node(nodes, x) {
                    let k = choose|k: int| 0 <= k < nodes.len() && nodes[k].id == x;
                    assert(r[k].id == x);
                }
                if x == node.id {
                    assert(r[i].id == x);
                }
            }
            assert forall|x: ModNodeId| has_mod_node(r, x) implies #[trigger] r[mod_node_index(r, x)]
                == mod_node_map(nodes).insert(node.id, node)[x] by {
                let k = mod_node_index(r, x);
                if k != i {
                    assert(nodes[k].id == x);
                    assert(mod_node_index(nodes, nodes[k].id) == k);
                }
            }
        }
    } else {
        let p = mod_insert_pos(nodes, node.id.0);
        lemma_insert_pos_props(nodes, node.id.0);
        assert forall|a: int, b: int| 0 <= a < b < r.len() implies r[a].id.0 < r[b].id.0 by {
            if a < p && b < p {
            } else if a < p && b == p {
            } else if a < p {
                assert(r[b] == nodes[b - 1]);
            } else if a == p {
                assert(r[b] == nodes[b - 1]);
                if nodes[b - 1].id == node.id {
                    assert(has_mod_node(nodes, node.id));
                }
            } else {
                assert(r[a] == nodes[a - 1]);
                assert(r[b] == nodes[b - 1]);
            }
        }
        assert forall|k: int| 0 <= k < r.len() implies mod_node_index(r, #[trigger] r[k].id) == k by {
            lemma_index_unique(r, k);
        }
        assert forall|k: int| 0 <= k < nodes.len() implies mod_node_index(nodes, #[trigger] nodes[k].id) == k by {
            lemma_index_unique(nodes, k);
        }
        assert(mod_node_map(r) =~= mod_node_map(nodes).insert(node.id, node)) by {
            assert forall|x: ModNodeId| #[trigger] has_mod_node(r, x) <==> has_mod_node(nodes, x) || x == node.id by {
                if has_mod_node(r, x) {
                    let k = choose|k: int| 0 <= k < r.len() && r[k].id == x;
                    if k < p {
                        assert(nodes[k].id == x);
                    } else if k > p {
                        assert(nodes[k - 1].id == x);
                    }
                }
                if has_mod_node(nodes, x) {
                    let k = choose|k: int| 0 <= k < nodes.len() && nodes[k].id == x;
                    if k < p {
                        assert(r[k].id == x);
                    } else {
                        assert(r[k + 1].id == x);
                    }
                }
                if x == node.id {
                    assert(r[p].id == x);
                }
            }
            assert forall|x: ModNodeId| has_mod_node(r, x) implies #[trigger] r[mod_node_index(r, x)]
                == mod_node_map(nodes).insert(node.id, node)[x] by {
                let k = mod_node_index(r, x);
                if k < p {
                    assert(nodes[k].id == x);
                    assert(mod_node_index(nodes, nodes[k].id) == k);
                } else if k > p {
                    assert(nodes[k - 1].id == x);
                    assert(mod_node_index(nodes, nodes[k - 1].id) == k - 1);
                }
            }
        }
    }
}

proof fn lemma_insert_pos_props<C>(nodes: Seq<ModNode<C>>, id: u32)
    requires
        mod_nodes_sorted(nodes),
    ensures
        0 <= mod_insert_pos(nodes, id) <= nodes.len(),
        forall|k: int| 0 <= k < mod_insert_pos(nodes, id) ==> nodes[k].id.0 < id,
        forall|k: int| mod_insert_pos(nodes, id) <= k < nodes.len() ==> nodes[k].id.0 >= id,
    decreases nodes.len(),
{
    if nodes.len() > 0 {
        let d = nodes.drop_last();
        assert(mod_nodes_sorted(d));
        lemma_insert_pos_props(d, id);
        if nodes.last().id.0 < id {
            assert forall|k: int| 0 <= k < nodes.len() implies nodes[k].id.0 < id by {
                if k < nodes.len() - 1 {
                    assert(nodes[k].id.0 < nodes[nodes.len() - 1].id.0);
                }
            }
        } else {
            assert forall|k: int| 0 <= k < mod_insert_pos(nodes, id) implies nodes[k].id.0 < id by {
                assert(nodes[k] == d[k]);
            }
            assert forall|k: int| mod_insert_pos(nodes, id) <= k < nodes.len() implies nodes[k].id.0
                >= id by {
                if k < nodes.len() - 1 {
                    assert(nodes[k] == d[k]);
                }
            }
        }
    }
}

proof fn lemma_without_node<C>(nodes: Seq<ModNode<C>>, id: ModNodeId)
    requires
        mod_nodes_sorted(nodes),
    ensures
        mod_nodes_sorted(without_mod_node(nodes, id)),
        mod_node_map(without_mod_node(nodes, id)) == mod_node_map(nodes).remove(id),
{
    let r = without_mod_node(nodes, id);
    assert forall|k: int| 0 <= k < nodes.len() implies mod_node_index(nodes, #[trigger] nodes[k].id) == k by {
        lemma_index_unique(nodes, k);
    }
    if has_mod_node(nodes, id) {
        let i = mod_node_index(nodes, id);
        assert forall|a: int, b: int| 0 <= a < b < r.len() implies r[a].id.0 < r[b].id.0 by {
            if a < i && b < i {
            } else if a < i {
                assert(r[b] == nodes[b + 1]);
            } else {
                assert(r[a] == nodes[a + 1]);
                assert(r[b] == nodes[b + 1]);
            }
        }
        assert forall|k: int| 0 <= k < r.len() implies mod_node_index(r, #[trigger] r[k].id) == k by {
            lemma_index_unique(r, k);
        }
        assert(mod_node_map(r) =~= mod_node_map(nodes).remove(id)) by {
            assert forall|x: ModNodeId| #[trigger] has_mod_node(r, x) <==> has_mod_node(nodes, x) && x != id by {
                if has_mod_node(r, x) {
                    let k = choose|k: int| 0 <= k < r.len() && r[k].id == x;
                    if k < i {
                        assert(nodes[k].id == x);
                    } else {
                        assert(nodes[k + 1].id == x);
                    }
                }
                if has_mod_node(nodes, x) && x != id {
                    let k = choose|k: int| 0 <= k < nodes.len() && nodes[k].id == x;
                    if k < i {
                        assert(r[k].id == x);
                    } else {
                        assert(k != i);
                        assert(r[k - 1].id == x);
                    }
                }
            }
            assert forall|x: ModNodeId| has_mod_node(r, x) implies #[trigger] r[mod_node_index(r, x)]
                == mod_node_map(nodes).remove(id)[x] by {
                let k = mod_node_index(r, x);
                if k < i {
                    assert(mod_node_index(nodes, nodes[k].id) == k);
                } else {
                    assert(mod_node_index(nodes, nodes[k + 1].id) == k + 1);
                }
            }
        }
    } else {
        assert(mod_node_map(r) =~= mod_node_map(nodes).remove(id));
    }
}

/// A graph without cables is valid.
proof fn lemma_no_cables_valid<C>(nodes: Seq<ModNode<C>>)
    ensures
        mod_validation(nodes, Seq::empty()) is Ok,
{
    let ids = mod_node_ids(nodes);
    assert(cable_edges(Seq::<ModConnection>::empty()) =~= Seq::<(u32, u32)>::empty());
    assert forall|k: int| 0 <= k < ids.len() implies ids.contains(#[trigger] ids[k]) by {}
    assert(is_topological(ids, cable_edges(Seq::empty()), ids));
}

/// The cables without those touching node `id`, with the positions (in the
/// original list) of the cables kept.
fn drop_touching(conns: Vec<ModConnection>, id: ModNodeId) -> (r: (Vec<ModConnection>, Ghost<Seq<int>>))
    ensures
        r.0@ == cables_apart_from(conns@, id),
        r.1@.len() == r.0@.len(),
        forall|k: int| 0 <= k < r.1@.len() ==> 0 <= #[trigger] r.1@[k] < conns@.len(),
        forall|k: int, l: int| 0 <= k < l < r.1@.len() ==> r.1@[k] < r.1@[l],
        forall|k: int| 0 <= k < r.1@.len() ==> r.0@[k] == conns@[#[trigger] r.1@[k]],
        forall|k: int| 0 <= k < r.0@.len() ==> !touches(#[trigger] r.0@[k], id),
{
    let ghost orig = conns@;
        let mut rest = conns;
    let mut kept: Vec<ModConnection> = Vec::new();
    let ghost mut keep: Seq<int> = Seq::empty();
    let ghost mut i: int = 0;
    while rest.len() > 0
        invariant
            0 <= i <= orig.len(),
            rest@ == orig.skip(i),
            kept@ == cables_apart_from(orig.take(i), id),
            keep.len() == kept@.len(),
            forall|k: int| 0 <= k < keep.len() ==> 0 <= #[trigger] keep[k] < i,
            forall|k: int, l: int| 0 <= k < l < keep.len() ==> keep[k] < keep[l],
            forall|k: int| 0 <= k < keep.len() ==> kept@[k] == orig[#[trigger] keep[k]],
            forall|k: int| 0 <= k < kept@.len() ==> !touches(#[trigger] kept@[k], id),
        decreases rest.len(),
    {
        let c = rest.remove(0);
        proof {
            assert(c == orig[i]);
            assert(orig.take(i + 1) =~= orig.take(i).push(orig[i]));
            assert(orig.take(i + 1).drop_last() =~= orig.take(i));
        }
        if c.from != id && c.to != id {
            kept.push(c);
            proof {
                keep = keep.push(i);
            }
        }
        proof {
            i = i + 1;
            assert(rest@ =~= orig.skip(i));
        }
    }
    proof {
        assert(orig.take(i) =~= orig);
    }
    (kept, Ghost(keep))
}

/// The cables without those equal to `target`, with the positions (in the
/// original list) of the cables kept.
fn drop_cable(conns: Vec<ModConnection>, target: &ModConnection) -> (r: (
    Vec<ModConnection>,
    Ghost<Seq<int>>,
))
    ensures
        r.0@ == cables_other_than(conns@, *target),
        r.0@.len() <= conns@.len(),
        r.0@.len() < conns@.len() <==> exists|k: int|
            0 <= k < conns@.len() && same_cable(#[trigger] conns@[k], *target),
        r.1@.len() == r.0@.len(),
        forall|k: int| 0 <= k < r.1@.len() ==> 0 <= #[trigger] r.1@[k] < conns@.len(),
        forall|k: int, l: int| 0 <= k < l < r.1@.len() ==> r.1@[k] < r.1@[l],
        forall|k: int| 0 <= k < r.1@.len() ==> r.0@[k] == conns@[#[trigger] r.1@[k]],
{
    let ghost orig = conns@;
        let mut rest = conns;
    let mut kept: Vec<ModConnection> = Vec::new();
    let ghost mut keep: Seq<int> = Seq::empty();
    let ghost mut i: int = 0;
    while rest.len() > 0
        invariant
            0 <= i <= orig.len(),
            rest@ == orig.skip(i),
            kept@ == cables_other_than(orig.take(i), *target),
            kept@.len() <= i,
            kept@.len() < i <==> exists|k: int| 0 <= k < i && same_cable(#[trigger] orig[k], *target),
            keep.len() == kept@.len(),
            forall|k: int| 0 <= k < keep.len() ==> 0 <= #[trigger] keep[k] < i,
            forall|k: int, l: int| 0 <= k < l < keep.len() ==> keep[k] < keep[l],
            forall|k: int| 0 <= k < keep.len() ==> kept@[k] == orig[#[trigger] keep[k]],
        decreases rest.len(),
    {
        let c = rest.remove(0);
        proof {
            assert(c == orig[i]);
            assert(orig.take(i + 1) =~= orig.take(i).push(orig[i]));
            assert(orig.take(i + 1).drop_last() =~= orig.take(i));
        }
        let same = c.from == target.from && c.from_port == target.from_port && c.to == target.to
            && c.to_port == target.to_port;
        if !same {
            kept.push(c);
            proof {
                keep = keep.push(i);
            }
        }
        proof {
            i = i + 1;
            assert(rest@ =~= orig.skip(i));
        }
    }
    proof {
        assert(orig.take(i) =~= orig);
    }
    (kept, Ghost(keep))
}

/// Dropping some cables (keeping the rest in order) from a valid graph
/// leaves it valid.
proof fn lemma_fewer_cables_valid<C>(
    nodes: Seq<ModNode<C>>,
    conns: Seq<ModConnection>,
    kept: Seq<ModConnection>,
    keep: Seq<int>,
)
    requires
        mod_validation(nodes, conns) is Ok,
        mod_nodes_sorted(nodes),
        keep.len() == kept.len(),
        forall|k: int| 0 <= k < keep.len() ==> 0 <= #[trigger] keep[k] < conns.len(),
        forall|k: int, l: int| 0 <= k < l < keep.len() ==> keep[k] < keep[l],
        forall|k: int| 0 <= k < keep.len() ==> kept[k] == conns[#[trigger] keep[k]],
    ensures
        mod_validation(nodes, kept) is Ok,
{
    lemma_endpoint_none(nodes, conns, 0);
    assert forall|k: int| 0 <= k < kept.len() implies has_mod_node(nodes, #[trigger] kept[k].from)
        && has_mod_node(nodes, kept[k].to) by {
        assert(kept[k] == conns[keep[k]]);
        assert(endpoint_error(nodes, conns[keep[k]]) is None);
    }
    assert forall|k: int| 0 <= k < nodes.len() implies exists|j: int|
        0 <= j < nodes.len() && nodes[j] == #[trigger] nodes[k] by {}
    lemma_mod_subgraph_valid(nodes, conns, nodes, kept, keep);
}

/// Removing node `i` and dropping the cables that touch it (keeping the rest
/// in order) leaves a valid graph valid.
proof fn lemma_removal_valid<C>(
    nodes: Seq<ModNode<C>>,
    conns: Seq<ModConnection>,
    i: int,
    kept: Seq<ModConnection>,
    keep: Seq<int>,
)
    requires
        mod_validation(nodes, conns) is Ok,
        mod_nodes_sorted(nodes),
        0 <= i < nodes.len(),
        keep.len() == kept.len(),
        forall|k: int| 0 <= k < keep.len() ==> 0 <= #[trigger] keep[k] < conns.len(),
        forall|k: int, l: int| 0 <= k < l < keep.len() ==> keep[k] < keep[l],
        forall|k: int| 0 <= k < keep.len() ==> kept[k] == conns[#[trigger] keep[k]],
        forall|k: int| 0 <= k < kept.len() ==> !touches(#[trigger] kept[k], nodes[i].id),
    ensures
        mod_validation(nodes.remove(i), kept) is Ok,
{
    let sub = nodes.remove(i);
    let id = nodes[i].id;
    lemma_endpoint_none(nodes, conns, 0);
    assert forall|k: int| 0 <= k < kept.len() implies has_mod_node(sub, #[trigger] kept[k].from)
        && has_mod_node(sub, kept[k].to) by {
        let c = kept[k];
        assert(c == conns[keep[k]]);
        assert(endpoint_error(nodes, conns[keep[k]]) is None);
        let a = choose|a: int| 0 <= a < nodes.len() && nodes[a].id == c.from;
        let b = choose|b: int| 0 <= b < nodes.len() && nodes[b].id == c.to;
        if a < i {
            assert(sub[a].id == c.from);
        } else {
            assert(a != i);
            assert(sub[a - 1].id == c.from);
        }
        if b < i {
            assert(sub[b].id == c.to);
        } else {
            assert(b != i);
            assert(sub[b - 1].id == c.to);
        }
    }
    assert forall|k: int| 0 <= k < sub.len() implies exists|j: int|
        0 <= j < nodes.len() && nodes[j] == #[trigger] sub[k] by {
        if k < i {
            assert(nodes[k] == sub[k]);
        } else {
            assert(nodes[k + 1] == sub[k]);
        }
    }
    lemma_mod_subgraph_valid(nodes, conns, sub, kept, keep);
}

/// Two node lists with the same ids and kinds, position by position.
pub open spec fn same_mod_shape<C>(a: Seq<ModNode<C>>, b: Seq<ModNode<C>>) -> bool {
    &&& a.len() == b.len()
    &&& forall|i: int| 0 <= i < a.len() ==> (#[trigger] a[i]).id == b[i].id && a[i].kind == b[i].kind
}

proof fn lemma_same_shape_endpoints<C>(a: Seq<ModNode<C>>, b: Seq<ModNode<C>>, conns: Seq<ModConnection>, i: int)
    requires
        same_mod_shape(a, b),
        forall|id: ModNodeId| has_mod_node(a, id) == has_mod_node(b, id),
        forall|id: ModNodeId| is_target_node(a, id) == is_target_node(b, id),
    ensures
        endpoint_error_from(a, conns, i) == endpoint_error_from(b, conns, i),
    decreases conns.len() - i,
{
    if 0 <= i < conns.len() {
        lemma_same_shape_endpoints(a, b, conns, i + 1);
    }
}

/// Validation looks at nodes only through their ids and kinds.
pub proof fn lemma_same_shape_validation<C>(a: Seq<ModNode<C>>, b: Seq<ModNode<C>>, conns: Seq<ModConnection>)
    requires
        same_mod_shape(a, b),
    ensures
        mod_validation(a, conns) == mod_validation(b, conns),
        mod_nodes_sorted(a) == mod_nodes_sorted(b),
{
    assert forall|id: ModNodeId| has_mod_node(a, id) == has_mod_node(b, id) by {
        if has_mod_node(a, id) {
            let i = choose|i: int| 0 <= i < a.len() && a[i].id == id;
            assert(b[i].id == id);
        }
        if has_mod_node(b, id) {
            let i = choose|i: int| 0 <= i < b.len() && b[i].id == id;
            assert(a[i].id == id);
        }
    }
    assert forall|id: ModNodeId| is_target_node(a, id) == is_target_node(b, id) by {
        if is_target_node(a, id) {
            let i = choose|i: int| 0 <= i < a.len() && a[i].id == id && a[i].kind == ModNodeKind::Target;
            assert(b[i].id == id && b[i].kind == ModNodeKind::Target);
        }
        if is_target_node(b, id) {
            let i = choose|i: int| 0 <= i < b.len() && b[i].id == id && b[i].kind == ModNodeKind::Target;
            assert(a[i].id == id && a[i].kind == ModNodeKind::Target);
        }
    }
    lemma_same_shape_endpoints(a, b, conns, 0);
    assert(mod_node_ids(a) =~= mod_node_ids(b));
    if mod_nodes_sorted(a) {
        assert forall|i: int, j: int| 0 <= i < j < b.len() implies b[i].id.0 < b[j].id.0 by {
            assert(a[i].id == b[i].id);
            assert(a[j].id == b[j].id);
        }
    }
    if mod_nodes_sorted(b) {
        assert forall|i: int, j: int| 0 <= i < j < a.len() implies a[i].id.0 < a[j].id.0 by {
            assert(a[i].id == b[i].id);
            assert(a[j].id == b[j].id);
        }
    }
}

// ----------------------------------------------------------------------------
// The graph
// ----------------------------------------------------------------------------

/// Static mod-graph configuration — a pooled project asset.
pub struct ModGraph<C> {
    id: ModGraphId,
    name: String,
    scope: ModGraphScope,
    assigned_tracks: Vec<TrackId>,
    description: String,
    color: Option<TrackColor>,
    nodes: Vec<ModNode<C>>,
    connections: Vec<ModConnection>,
}

impl<C> ModGraph<C> {
    #[verifier::type_invariant]
    spec fn inv(self) -> bool {
        &&& mod_nodes_sorted(self.nodes@)
        &&& self.nodes@.len() <= MAX_MOD_GRID_NODES
        &&& mod_validation(self.nodes@, self.connections@) is Ok
    }

    /// The nodes, ordered by id.
    pub closed spec fn node_seq(&self) -> Seq<ModNode<C>> {
        self.nodes@
    }

    /// The cables, in insertion order.
    pub closed spec fn cable_seq(&self) -> Seq<ModConnection> {
        self.connections@
    }

    pub closed spec fn spec_id(&self) -> ModGraphId {
        self.id
    }

    pub closed spec fn spec_name(&self) -> Seq<char> {
        self.name@
    }

    /// The free-text description.
    pub closed spec fn spec_description(&self) -> Seq<char> {
        self.description@
    }

    /// The colour, if any.
    pub closed spec fn spec_color(&self) -> Option<TrackColor> {
        self.color
    }

    pub closed spec fn spec_scope(&self) -> ModGraphScope {
        self.scope
    }

    /// The tracks the graph is assigned to, in assignment order.
    pub closed spec fn spec_assigned(&self) -> Seq<TrackId> {
        self.assigned_tracks@
    }

    /// Create an empty graph with the given id and name (global scope).
    pub fn new(id: ModGraphId, name: String) -> (g: Self)
        ensures
            g.spec_id() == id,
            g.spec_name() == name@,
            g.spec_scope() == ModGraphScope::Global,
            g.spec_assigned().len() == 0,
            g.node_seq().len() == 0,
            g.cable_seq().len() == 0,
    {
        let nodes: Vec<ModNode<C>> = Vec::new();
        let connections: Vec<ModConnection> = Vec::new();
        proof {
            assert(mod_node_ids(nodes@) =~= Seq::empty());
            assert(cable_edges(connections@) =~= Seq::empty());
            assert(is_topological(mod_node_ids(nodes@), cable_edges(connections@), Seq::empty()));
        }
        ModGraph {
            id,
            name,
            scope: ModGraphScope::Global,
            assigned_tracks: Vec::new(),
            description: String::new(),
            color: None,
            nodes,
            connections,
        }
    }

    /// Pool-unique id.
    pub fn id(&self) -> (r: ModGraphId)
        ensures
            r == self.spec_id(),
    {
        self.id
    }

    /// User-facing name.
    pub fn name(&self) -> (r: &String)
        ensures
            r@ == self.spec_name(),
    {
        &self.name
    }

    /// Where the graph runs.
    pub fn scope(&self) -> (r: ModGraphScope)
        ensures
            r == self.spec_scope(),
    {
        self.scope
    }

    /// Change where the graph runs.
    pub fn set_scope(&mut self, scope: ModGraphScope)
        ensures
            final(self).spec_description() == old(self).spec_description(),
            final(self).spec_color() == old(self).spec_color(),
            final(self).spec_id() == old(self).spec_id(),
            final(self).spec_name() == old(self).spec_name(),
            final(self).spec_assigned() == old(self).spec_assigned(),
            final(self).spec_scope() == scope,
            final(self).node_seq() == old(self).node_seq(),
            final(self).cable_seq() == old(self).cable_seq(),
    {
        proof {
            use_type_invariant(&*self);
        }
        self.scope = scope;
    }

    /// Rename the graph.
    pub fn set_name(&mut self, name: String)
        ensures
            final(self).spec_description() == old(self).spec_description(),
            final(self).spec_color() == old(self).spec_color(),
            final(self).spec_assigned() == old(self).spec_assigned(),
            final(self).spec_name() == name@,
            final(self).spec_id() == old(self).spec_id(),
            final(self).spec_scope() == old(self).spec_scope(),
            final(self).node_seq() == old(self).node_seq(),
            final(self).cable_seq() == old(self).cable_seq(),
    {
        proof {
            use_type_invariant(&*self);
        }
        self.name = name;
    }

    /// Free-text description.
    pub fn description(&self) -> (r: &String)
        ensures
            r@ == self.spec_description(),
    {
        &self.description
    }

    /// Replace the description.
    pub fn set_description(&mut self, description: String)
        ensures
            final(self).spec_color() == old(self).spec_color(),
            final(self).spec_description() == description@,
            final(self).spec_assigned() == old(self).spec_assigned(),
            final(self).spec_name() == old(self).spec_name(),
            final(self).spec_id() == old(self).spec_id(),
            final(self).spec_scope() == old(self).spec_scope(),
            final(self).node_seq() == old(self).node_seq(),
            final(self).cable_seq() == old(self).cable_seq(),
    {
        proof {
            use_type_invariant(&*self);
        }
        self.description = description;
    }

    /// Sequencer-side colour, if any.
    pub fn color(&self) -> (r: Option<TrackColor>)
        ensures
            r == self.spec_color(),
    {
        self.color
    }

    /// Set or clear the colour.
    pub fn set_color(&mut self, color: Option<TrackColor>)
        ensures
            final(self).spec_description() == old(self).spec_description(),
            final(self).spec_color() == color,
            final(self).spec_assigned() == old(self).spec_assigned(),
            final(self).spec_name() == old(self).spec_name(),
            final(self).spec_id() == old(self).spec_id(),
            final(self).spec_scope() == old(self).spec_scope(),
            final(self).node_seq() == old(self).node_seq(),
            final(self).cable_seq() == old(self).cable_seq(),
    {
        proof {
            use_type_invariant(&*self);
        }
        self.color = color;
    }

    /// Tracks this graph is assigned to (Track scope only).
    pub fn assigned_tracks(&self) -> (r: &Vec<TrackId>)
        ensures
            r@ == self.spec_assigned(),
    {
        &self.assigned_tracks
    }

    /// Replace the track assignments.
    pub fn set_assigned_tracks(&mut self, tracks: Vec<TrackId>)
        ensures
            final(self).spec_description() == old(self).spec_description(),
            final(self).spec_color() == old(self).spec_color(),
            final(self).spec_assigned() == tracks@,
            final(self).spec_name() == old(self).spec_name(),
            final(self).spec_id() == old(self).spec_id(),
            final(self).spec_scope() == old(self).spec_scope(),
            final(self).node_seq() == old(self).node_seq(),
            final(self).cable_seq() == old(self).cable_seq(),
    {
        proof {
            use_type_invariant(&*self);
        }
        self.assigned_tracks = tracks;
    }

    /// The nodes, ordered by id.
    pub fn nodes(&self) -> (r: &Vec<ModNode<C>>)
        ensures
            r@ == self.node_seq(),
    {
        &self.nodes
    }

    /// The cables.
    pub fn connections(&self) -> (r: &Vec<ModConnection>)
        ensures
            r@ == self.cable_seq(),
    {
        &self.connections
    }

    /// Number of nodes.
    pub fn node_count(&self) -> (n: usize)
        ensures
            n == self.node_seq().len(),
    {
        self.nodes.len()
    }

    /// Position of the node with this id, if any.
    fn position(&self, id: ModNodeId) -> (r: Option<usize>)
        ensures
            r matches Some(i) ==> i < self.node_seq().len() && self.node_seq()[i as int].id == id,
            r is None <==> !has_mod_node(self.node_seq(), id),
    {
        let mut i: usize = 0;
        while i < self.nodes.len()
            invariant
                i <= self.nodes.len(),
                forall|k: int| 0 <= k < i ==> self.nodes@[k].id != id,
            decreases self.nodes.len() - i,
        {
            if self.nodes[i].id == id {
                return Some(i);
            }
            i += 1;
        }
        None
    }

    /// The smallest unused [`ModNodeId`] — used by editors to allocate node
    /// ids.
    pub fn next_node_id(&self) -> (r: ModNodeId)
        ensures
            !has_mod_node(self.node_seq(), r),
            forall|k: u32| k < r.0 ==> has_mod_node(self.node_seq(), ModNodeId(k)),
    {
        proof {
            use_type_invariant(self);
        }
        let mut candidate: u32 = 0;
        let mut i: usize = 0;
        while i < self.nodes.len()
            invariant
                i <= self.nodes.len(),
                self.nodes.len() <= MAX_MOD_GRID_NODES,
                mod_nodes_sorted(self.nodes@),
                candidate == i,
                forall|k: int| 0 <= k < i ==> self.nodes@[k].id.0 == k,
            decreases self.nodes.len() - i,
        {
            if self.nodes[i].id.0 != candidate {
                proof {
                    assert forall|k: u32| k < candidate implies has_mod_node(
                        self.nodes@,
                        ModNodeId(k),
                    ) by {
                        assert(self.nodes@[k as int].id == ModNodeId(k));
                    }
                    if has_mod_node(self.nodes@, ModNodeId(candidate)) {
                        let j = choose|j: int|
                            0 <= j < self.nodes@.len() && self.nodes@[j].id == ModNodeId(candidate);
                        if j < i {
                        } else if j > i {
                            if i > 0 {
                                assert(self.nodes@[i - 1].id.0 < self.nodes@[i as int].id.0);
                            }
                        }
                    }
                }
                return ModNodeId::new(candidate);
            }
            candidate += 1;
            i += 1;
        }
        proof {
            assert forall|k: u32| k < candidate implies has_mod_node(self.nodes@, ModNodeId(k)) by {
                assert(self.nodes@[k as int].id == ModNodeId(k));
            }
        }
        ModNodeId::new(candidate)
    }

    /// Insert (or replace) a node, enforcing the [`MAX_MOD_GRID_NODES`] cap
    /// (replacing an existing id never trips the cap). Replacing a node can
    /// turn a source into a `Target`, invalidating an outgoing cable, so the
    /// graph is re-validated and the edit rolled back on rejection.
    pub fn try_insert_node(&mut self, id: ModNodeId, kind: ModNodeKind, config: C) -> (r: Result<
        (),
        ModGraphError,
    >)
        ensures
            final(self).spec_description() == old(self).spec_description(),
            final(self).spec_color() == old(self).spec_color(),
            final(self).spec_assigned() == old(self).spec_assigned(),
            ({
                let node = ModNode { id, kind, config };
                let at_cap = !has_mod_node(old(self).node_seq(), id) && old(self).node_seq().len()
                    >= MAX_MOD_GRID_NODES;
                &&& r == if at_cap {
                    Err(ModGraphError::NodeCapExceeded)
                } else {
                    mod_validation(with_mod_node(old(self).node_seq(), node), old(self).cable_seq())
                }
                &&& r is Ok ==> final(self).node_seq() == with_mod_node(old(self).node_seq(), node)
                &&& r is Err ==> final(self).node_seq() == old(self).node_seq()
            }),
            final(self).cable_seq() == old(self).cable_seq(),
            final(self).spec_id() == old(self).spec_id(),
            final(self).spec_name() == old(self).spec_name(),
            final(self).spec_scope() == old(self).spec_scope(),
    {
        proof {
            use_type_invariant(&*self);
        }
        let pos = self.position(id);
        if pos.is_none() && self.nodes.len() >= MAX_MOD_GRID_NODES {
            return Err(ModGraphError::NodeCapExceeded);
        }
        proof {
            lemma_no_cables_valid(self.nodes@);
            lemma_no_cables_valid(Seq::<ModNode<C>>::empty());
            assert(mod_node_ids(Seq::<ModNode<C>>::empty()) =~= Seq::empty());
        }
        let mut conns: Vec<ModConnection> = Vec::new();
        std::mem::swap(&mut conns, &mut self.connections);
        let mut nodes: Vec<ModNode<C>> = Vec::new();
        std::mem::swap(&mut nodes, &mut self.nodes);
        let node = ModNode { id, kind, config };
        proof {
            lemma_with_node(nodes@, node);
        }
        let res = Self::insert_checked(&mut nodes, &conns, node);
        proof {
            lemma_no_cables_valid(nodes@);
        }
        self.nodes = nodes;
        self.connections = conns;
        res
    }

    /// Remove a node and every cable touching it. Dropping edges can never
    /// introduce a cycle or duplicate, so this cannot fail. Returns the
    /// removed config, or `None` if the id was absent.
    pub fn remove_node(&mut self, id: ModNodeId) -> (r: Option<C>)
        ensures
            final(self).spec_description() == old(self).spec_description(),
            final(self).spec_color() == old(self).spec_color(),
            final(self).spec_assigned() == old(self).spec_assigned(),
            r is None <==> !has_mod_node(old(self).node_seq(), id),
            r matches Some(c) ==> c == mod_node_map(old(self).node_seq())[id].config,
            final(self).node_seq() == without_mod_node(old(self).node_seq(), id),
            r is None ==> final(self).cable_seq() == old(self).cable_seq(),
            r is Some ==> final(self).cable_seq() == cables_apart_from(old(self).cable_seq(), id),
            final(self).spec_id() == old(self).spec_id(),
            final(self).spec_name() == old(self).spec_name(),
            final(self).spec_scope() == old(self).spec_scope(),
    {
        proof {
            use_type_invariant(&*self);
        }
        let pos = self.position(id);
        match pos {
            None => None,
            Some(i) => {
                proof {
                    lemma_no_cables_valid(self.nodes@);
                    lemma_no_cables_valid(Seq::<ModNode<C>>::empty());
                    lemma_index_unique(self.nodes@, i as int);
                }
                let ghost old_nodes = self.nodes@;
                let ghost old_conns = self.connections@;
                let mut conns: Vec<ModConnection> = Vec::new();
                std::mem::swap(&mut conns, &mut self.connections);
                let mut nodes: Vec<ModNode<C>> = Vec::new();
                std::mem::swap(&mut nodes, &mut self.nodes);
                let removed = nodes.remove(i);
                let (kept, Ghost(keep)) = drop_touching(conns, id);
                proof {
                    lemma_without_node(old_nodes, id);
                    lemma_no_cables_valid(nodes@);
                    lemma_removal_valid(old_nodes, old_conns, i as int, kept@, keep);
                }
                self.nodes = nodes;
                self.connections = kept;
                Some(removed.config)
            },
        }
    }

    /// Add a cable, validating endpoints, single-source-per-input, and
    /// acyclicity. On error the cable is rolled back and the graph is
    /// unchanged.
    pub fn try_connect(&mut self, connection: ModConnection) -> (r: Result<(), ModGraphError>)
        ensures
            final(self).spec_description() == old(self).spec_description(),
            final(self).spec_color() == old(self).spec_color(),
            final(self).spec_assigned() == old(self).spec_assigned(),
            r == mod_validation(old(self).node_seq(), old(self).cable_seq().push(connection)),
            r is Ok ==> final(self).cable_seq() == old(self).cable_seq().push(connection),
            r is Err ==> final(self).cable_seq() == old(self).cable_seq(),
            final(self).node_seq() == old(self).node_seq(),
            final(self).spec_id() == old(self).spec_id(),
            final(self).spec_name() == old(self).spec_name(),
            final(self).spec_scope() == old(self).spec_scope(),
    {
        proof {
            use_type_invariant(&*self);
            lemma_no_cables_valid(self.nodes@);
        }
        let ghost old_conns = self.connections@;
        let mut conns: Vec<ModConnection> = Vec::new();
        std::mem::swap(&mut conns, &mut self.connections);
        conns.push(connection);
        let res = Self::check(&self.nodes, &conns);
        if res.is_err() {
            conns.pop();
            proof {
                assert(conns@ =~= old_conns);
            }
        }
        self.connections = conns;
        res
    }

    /// Remove a specific cable. Returns `true` if one was removed.
    pub fn disconnect(&mut self, connection: &ModConnection) -> (r: bool)
        ensures
            final(self).spec_description() == old(self).spec_description(),
            final(self).spec_color() == old(self).spec_color(),
            final(self).spec_assigned() == old(self).spec_assigned(),
            final(self).cable_seq() == cables_other_than(old(self).cable_seq(), *connection),
            r <==> exists|k: int|
                0 <= k < old(self).cable_seq().len() && same_cable(
                    #[trigger] old(self).cable_seq()[k],
                    *connection,
                ),
            r == (final(self).cable_seq().len() != old(self).cable_seq().len()),
            final(self).node_seq() == old(self).node_seq(),
            final(self).spec_id() == old(self).spec_id(),
            final(self).spec_name() == old(self).spec_name(),
            final(self).spec_scope() == old(self).spec_scope(),
    {
        proof {
            use_type_invariant(&*self);
            lemma_no_cables_valid(self.nodes@);
        }
        let ghost old_conns = self.connections@;
        let mut conns: Vec<ModConnection> = Vec::new();
        std::mem::swap(&mut conns, &mut self.connections);
        let before = conns.len();
        let (kept, Ghost(keep)) = drop_cable(conns, connection);
        proof {
            lemma_fewer_cables_valid(self.nodes@, old_conns, kept@, keep);
        }
        let after = kept.len();
        self.connections = kept;
        after != before
    }

    /// Insert `node` and validate against `conns`; undo the insertion when
    /// validation fails.
    fn insert_checked(nodes: &mut Vec<ModNode<C>>, conns: &Vec<ModConnection>, node: ModNode<C>) -> (r:
        Result<(), ModGraphError>)
        requires
            mod_nodes_sorted(old(nodes)@),
        ensures
            r == mod_validation(with_mod_node(old(nodes)@, node), conns@),
            r is Ok ==> final(nodes)@ == with_mod_node(old(nodes)@, node),
            r is Err ==> final(nodes)@ == old(nodes)@,
            mod_nodes_sorted(final(nodes)@),
    {
        let ghost old_nodes = nodes@;
        proof {
            lemma_with_node(old_nodes, node);
        }
        let (at, previous) = Self::place_node(nodes, node);
        let res = Self::check(nodes, conns);
        if res.is_err() {
            match previous {
                Some(o) => {
                    nodes.remove(at);
                    nodes.insert(at, o);
                    proof {
                        assert(nodes@ =~= old_nodes);
                    }
                },
                None => {
                    nodes.remove(at);
                    proof {
                        assert(nodes@ =~= old_nodes);
                    }
                },
            }
        }
        res
    }

    /// Insert `node` into the id-ordered list, replacing the node with its id
    /// if there is one. Returns where it went and the node it replaced.
    fn place_node(nodes: &mut Vec<ModNode<C>>, node: ModNode<C>) -> (r: (usize, Option<ModNode<C>>))
        requires
            mod_nodes_sorted(old(nodes)@),
        ensures
            final(nodes)@ == with_mod_node(old(nodes)@, node),
            r.1 is Some <==> has_mod_node(old(nodes)@, node.id),
            r.1 matches Some(o) ==> r.0 < old(nodes)@.len() && o == old(nodes)@[r.0 as int]
                && final(nodes)@ == old(nodes)@.update(r.0 as int, node),
            r.1 is None ==> r.0 <= old(nodes)@.len() && final(nodes)@ == old(nodes)@.insert(
                r.0 as int,
                node,
            ),
    {
        let ghost old_nodes = nodes@;
        let id = node.id;
        let mut i: usize = 0;
        while i < nodes.len() && nodes[i].id.0 < id.0
            invariant
                i <= nodes.len(),
                nodes@ == old_nodes,
                mod_nodes_sorted(old_nodes),
                forall|k: int| 0 <= k < i ==> nodes@[k].id.0 < id.0,
            decreases nodes.len() - i,
        {
            i += 1;
        }
        if i < nodes.len() && nodes[i].id == id {
            let o = nodes.remove(i);
            nodes.insert(i, node);
            proof {
                lemma_index_unique(old_nodes, i as int);
                assert(nodes@ =~= old_nodes.update(i as int, node));
            }
            return (i, Some(o));
        }
        proof {
            assert forall|k: int| i <= k < old_nodes.len() implies old_nodes[k].id.0 > id.0 by {
                if k > i {
                    assert(old_nodes[i as int].id.0 < old_nodes[k].id.0);
                }
                if old_nodes[k].id.0 == id.0 {
                    assert(old_nodes[k].id == id);
                }
            }
            if has_mod_node(old_nodes, id) {
                let k = choose|k: int| 0 <= k < old_nodes.len() && old_nodes[k].id == id;
            }
            lemma_insert_pos(old_nodes, id.0, i as int);
        }
        nodes.insert(i, node);
        (i, None)
    }

    /// Validate the whole graph: every cable references present nodes,
    /// sources aren't `Target` sinks, no duplicate cable or double-driven
    /// input, and no cycle. (Port names are not checked against any module
    /// description.)
    pub fn validate(&self) -> (r: Result<(), ModGraphError>)
        ensures
            r == mod_validation(self.node_seq(), self.cable_seq()),
            r is Ok,
            mod_nodes_sorted(self.node_seq()),
            self.node_seq().len() <= MAX_MOD_GRID_NODES,
    {
        proof {
            use_type_invariant(self);
        }
        Self::check(&self.nodes, &self.connections)
    }

    /// Validation of a node list and a cable list.
    fn check(nodes: &Vec<ModNode<C>>, conns: &Vec<ModConnection>) -> (r: Result<(), ModGraphError>)
        requires
            mod_nodes_sorted(nodes@),
        ensures
            r == mod_validation(nodes@, conns@),
    {
        let mut i: usize = 0;
        while i < conns.len()
            invariant
                i <= conns.len(),
                mod_nodes_sorted(nodes@),
                endpoint_error_from(nodes@, conns@, 0) == endpoint_error_from(nodes@, conns@, i as int),
            decreases conns.len() - i,
        {
            let c = &conns[i];
            let from = Self::find_kind(nodes, c.from);
            match from {
                None => {
                    return Err(ModGraphError::UnknownNode(c.from));
                },
                Some(kind) => {
                    if Self::find_kind(nodes, c.to).is_none() {
                        return Err(ModGraphError::UnknownNode(c.to));
                    }
                    if kind.is_target() {
                        return Err(ModGraphError::NotASource(c.from));
                    }
                },
            }
            i += 1;
        }
        proof {
            lemma_endpoint_none(nodes@, conns@, 0);
            assert forall|k: int| 0 <= k < conns@.len() implies ids_contain_ends(nodes@, conns@, k) by {
                lemma_endpoint_none(nodes@, conns@, 0);
                assert(endpoint_error(nodes@, conns@[k]) is None);
                lemma_has_node_ids(nodes@, conns@[k].from);
                lemma_has_node_ids(nodes@, conns@[k].to);
            }
        }
        let mut a: usize = 0;
        while a < conns.len()
            invariant
                a <= conns.len(),
                endpoint_error_from(nodes@, conns@, 0) is None,
                pair_error_from(conns@, 0) == pair_error_from(conns@, a as int),
            decreases conns.len() - a,
        {
            let mut b: usize = a + 1;
            while b < conns.len()
                invariant
                    a < conns.len(),
                    a + 1 <= b <= conns.len(),
                    endpoint_error_from(nodes@, conns@, 0) is None,
                    pair_error_from(conns@, 0) == pair_error_from(conns@, a as int),
                    clash_from(conns@, a as int, a + 1) == clash_from(conns@, a as int, b as int),
                decreases conns.len() - b,
            {
                let x = &conns[a];
                let y = &conns[b];
                let same_to = x.to == y.to && x.to_port == y.to_port;
                if same_to && x.from == y.from && x.from_port == y.from_port {
                    return Err(
                        ModGraphError::DuplicateConnection(
                            x.from,
                            x.from_port.clone(),
                            x.to,
                            x.to_port.clone(),
                        ),
                    );
                }
                if same_to {
                    return Err(ModGraphError::DuplicateInput(x.to, x.to_port.clone()));
                }
                b += 1;
            }
            a += 1;
        }
        let mut ids: Vec<u32> = Vec::new();
        let mut k: usize = 0;
        while k < nodes.len()
            invariant
                k <= nodes.len(),
                ids@ == mod_node_ids(nodes@).subrange(0, k as int),
            decreases nodes.len() - k,
        {
            ids.push(nodes[k].id.0);
            k += 1;
            proof {
                assert(ids@ =~= mod_node_ids(nodes@).subrange(0, k as int));
            }
        }
        let mut edges: Vec<(u32, u32)> = Vec::new();
        let mut k: usize = 0;
        while k < conns.len()
            invariant
                k <= conns.len(),
                edges@ == cable_edges(conns@).subrange(0, k as int),
            decreases conns.len() - k,
        {
            edges.push((conns[k].from.0, conns[k].to.0));
            k += 1;
            proof {
                assert(edges@ =~= cable_edges(conns@).subrange(0, k as int));
            }
        }
        proof {
            assert(ids@ =~= mod_node_ids(nodes@));
            assert(edges@ =~= cable_edges(conns@));
            assert forall|e: int| 0 <= e < edges@.len() implies ids@.contains(
                #[trigger] edges@[e].0,
            ) && ids@.contains(edges@[e].1) by {
                assert(ids_contain_ends(nodes@, conns@, e));
            }
        }
        match kahn_order(&ids, &edges) {
            Some(_) => Ok(()),
            None => Err(ModGraphError::Cycle),
        }
    }

    /// The kind of the node with this id, if any.
    fn find_kind(nodes: &Vec<ModNode<C>>, id: ModNodeId) -> (r: Option<ModNodeKind>)
        requires
            mod_nodes_sorted(nodes@),
        ensures
            r is None <==> !has_mod_node(nodes@, id),
            r matches Some(k) ==> (k == ModNodeKind::Target <==> is_target_node(nodes@, id)),
    {
        let mut i: usize = 0;
        while i < nodes.len()
            invariant
                i <= nodes.len(),
                mod_nodes_sorted(nodes@),
                forall|k: int| 0 <= k < i ==> nodes@[k].id != id,
            decreases nodes.len() - i,
        {
            if nodes[i].id == id {
                proof {
                    if is_target_node(nodes@, id) {
                        let j = choose|j: int|
                            0 <= j < nodes@.len() && nodes@[j].id == id && nodes@[j].kind
                                == ModNodeKind::Target;
                        if j < i {
                            assert(nodes@[j].id.0 < nodes@[i as int].id.0);
                        } else if j > i {
                            assert(nodes@[i as int].id.0 < nodes@[j].id.0);
                        }
                    }
                }
                return Some(nodes[i].kind);
            }
            i += 1;
        }
        None
    }
}

impl<C: Clone> ModGraph<C> {
    /// A copy of this graph under another id and name: the same scope, track
    /// assignments, description, colour and cables, and the same nodes with
    /// their configurations cloned.
    pub fn duplicate(&self, id: ModGraphId, name: String) -> (g: Self)
        ensures
            g.spec_description() == self.spec_description(),
            g.spec_color() == self.spec_color(),
            g.spec_id() == id,
            g.spec_name() == name@,
            g.spec_scope() == self.spec_scope(),
            g.spec_assigned() == self.spec_assigned(),
            g.cable_seq() == self.cable_seq(),
            same_mod_shape(g.node_seq(), self.node_seq()),
            forall|i: int| 0 <= i < g.node_seq().len() ==> cloned::<C>(self.node_seq()[i].config, #[trigger] g.node_seq()[i].config),
    {
        proof {
            use_type_invariant(self);
        }
        let mut nodes: Vec<ModNode<C>> = Vec::new();
        let mut i: usize = 0;
        while i < self.nodes.len()
            invariant
                i <= self.nodes@.len(),
                nodes@.len() == i,
                forall|k: int| 0 <= k < i ==> (#[trigger] nodes@[k]).id == self.nodes@[k].id && nodes@[k].kind == self.nodes@[k].kind
                    && cloned::<C>(self.nodes@[k].config, nodes@[k].config),
            decreases self.nodes@.len() - i,
        {
            let n = &self.nodes[i];
            nodes.push(ModNode { id: n.id, kind: n.kind, config: n.config.clone() });
            i = i + 1;
        }
        let mut connections: Vec<ModConnection> = Vec::new();
        let mut j: usize = 0;
        while j < self.connections.len()
            invariant
                j <= self.connections@.len(),
                connections@ == self.connections@.subrange(0, j as int),
            decreases self.connections@.len() - j,
        {
            let c = &self.connections[j];
            connections.push(ModConnection { from: c.from, from_port: c.from_port.clone(), to: c.to, to_port: c.to_port.clone() });
            proof {
                assert(connections@ =~= self.connections@.subrange(0, j + 1));
            }
            j = j + 1;
        }
        let mut assigned: Vec<TrackId> = Vec::new();
        let mut t: usize = 0;
        while t < self.assigned_tracks.len()
            invariant
                t <= self.assigned_tracks@.len(),
                assigned@ == self.assigned_tracks@.subrange(0, t as int),
            decreases self.assigned_tracks@.len() - t,
        {
            assigned.push(self.assigned_tracks[t]);
            proof {
                assert(assigned@ =~= self.assigned_tracks@.subrange(0, t + 1));
            }
            t = t + 1;
        }
        proof {
            assert(connections@ =~= self.connections@);
            assert(assigned@ =~= self.assigned_tracks@);
            lemma_same_shape_validation(nodes@, self.nodes@, self.connections@);
        }
        ModGraph {
            id,
            name,
            scope: self.scope,
            assigned_tracks: assigned,
            description: self.description.clone(),
            color: self.color,
            nodes,
            connections,
        }
    }
}


/// Both ends of cable `k` are node ids.
spec fn ids_contain_ends<C>(nodes: Seq<ModNode<C>>, conns: Seq<ModConnection>, k: int) -> bool {
    mod_node_ids(nodes).contains(conns[k].from.0) && mod_node_ids(nodes).contains(conns[k].to.0)
}

} // verus!
