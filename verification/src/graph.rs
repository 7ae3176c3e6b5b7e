//! The graph a log folds into, from yoagent-state, seen through its contents.

use vstd::prelude::*;
use crate::event::{EventView, LogEvent, event_views};
use crate::json::{JsonView, json_equal, lemma_json_equal_refl, value_contents};
use crate::text::strs;
use yoagent_state::{Event, Graph, NodeId};

verus! {

/// yoagent-state's `Graph`, held opaque.
#[verifier::external_type_specification]
#[verifier::external_body]
pub struct ExGraph(yoagent_state::Graph);

pub struct ArtifactView {
    pub kind: Seq<char>,
    pub uri: Seq<char>,
    pub hash: Option<Seq<char>>,
    pub summary: Option<Seq<char>>,
    pub metadata: JsonView,
}

pub struct NodeView {
    pub id: Seq<char>,
    pub kind: Seq<char>,
    pub props: JsonView,
    pub stale: bool,
    pub tombstoned: bool,
    pub artifacts: Seq<ArtifactView>,
}

pub struct RelationView {
    pub from: Seq<char>,
    pub rel: Seq<char>,
    pub to: Seq<char>,
    pub props: JsonView,
}

/// A graph's contents: nodes by id, relations in order, and the version.
pub struct GraphView {
    pub nodes: Map<Seq<char>, NodeView>,
    pub relations: Seq<RelationView>,
    pub version: u64,
}

/// What a yoagent-state `Graph` holds.
pub uninterp spec fn graph_contents(g: Graph) -> GraphView;

/// The outcome of yoagent-state's `replay` on a sequence of events: the
/// folded graph, or the error's message.
pub uninterp spec fn replay_of(events: Seq<EventView>) -> Result<GraphView, Seq<char>>;

/// The outcome of decoding a JSON document as a yoagent-state `Graph`
/// (`serde_json::from_value::<Graph>`): the graph, or the error's message.
pub uninterp spec fn graph_from_json(j: JsonView) -> Result<GraphView, Seq<char>>;

/// Folds the first `n` events with yoagent-state's `replay`. The outcome is
/// the named result `replay_of` of those events; an error is given by its
/// message.
#[verifier::external_body]
pub(crate) fn replay_events(events: &[LogEvent], n: usize) -> (r: Result<Graph, String>)
    requires
        n <= events.len(),
    ensures
        match r {
            Ok(g) => replay_of(event_views(events@).take(n as int)) == Ok::<GraphView, Seq<char>>(graph_contents(g)),
            Err(m) => replay_of(event_views(events@).take(n as int)) == Err::<GraphView, Seq<char>>(m@),
        },
{
    let evs: Vec<Event> = events[..n].iter().map(|e| e.raw().clone()).collect();
    yoagent_state::replay(&evs).map_err(|e| e.to_string())
}

/// Decodes a JSON value as a yoagent-state `Graph` with
/// `serde_json::from_value`. The outcome is the named result
/// `graph_from_json` of the value's contents.
#[verifier::external_body]
pub(crate) fn decode_graph(v: &serde_json::Value) -> (r: Result<Graph, String>)
    ensures
        match r {
            Ok(g) => graph_from_json(value_contents(*v)) == Ok::<GraphView, Seq<char>>(graph_contents(g)),
            Err(m) => graph_from_json(value_contents(*v)) == Err::<GraphView, Seq<char>>(m@),
        },
{
    serde_json::from_value::<Graph>(v.clone()).map_err(|e| e.to_string())
}

pub open spec fn artifact_equal(a: ArtifactView, b: ArtifactView) -> bool {
    a.kind == b.kind && a.uri == b.uri && a.hash == b.hash && a.summary == b.summary && json_equal(
        a.metadata,
        b.metadata,
    )
}

pub open spec fn node_equal(a: NodeView, b: NodeView) -> bool {
    &&& a.id == b.id
    &&& a.kind == b.kind
    &&& json_equal(a.props, b.props)
    &&& a.stale == b.stale
    &&& a.tombstoned == b.tombstoned
    &&& a.artifacts.len() == b.artifacts.len()
    &&& forall|i: int| 0 <= i < a.artifacts.len() ==> artifact_equal(#[trigger] a.artifacts[i], b.artifacts[i])
}

pub open spec fn relation_equal(a: RelationView, b: RelationView) -> bool {
    a.from == b.from && a.rel == b.rel && a.to == b.to && json_equal(a.props, b.props)
}

/// Graph equality as yoagent-state's derived `PartialEq` defines it: the
/// same node ids with equal nodes, equal relations in the same order, and
/// the same version.
pub open spec fn graph_equal(a: GraphView, b: GraphView) -> bool {
    &&& a.version == b.version
    &&& a.nodes.dom() == b.nodes.dom()
    &&& forall|k: Seq<char>| a.nodes.dom().contains(k) ==> node_equal(#[trigger] a.nodes[k], b.nodes[k])
    &&& a.relations.len() == b.relations.len()
    &&& forall|i: int| 0 <= i < a.relations.len() ==> relation_equal(#[trigger] a.relations[i], b.relations[i])
}

/// Compares two graphs with yoagent-state's derived `PartialEq` for `Graph`.
/// Claims the result is `graph_equal` of the two graphs' contents.
#[verifier::external_body]
pub(crate) fn graph_eq(a: &Graph, b: &Graph) -> (r: bool)
    ensures
        r == graph_equal(graph_contents(*a), graph_contents(*b)),
{
    a == b
}

/// The props of node `id` (`Graph::get_node`), cloned. Claims they are the
/// props of that node in the graph's contents, and `None` exactly where the
/// graph has no such node.
#[verifier::external_body]
pub(crate) fn node_props(g: &Graph, id: &str) -> (r: Option<serde_json::Value>)
    ensures
        match r {
            Some(p) => graph_contents(*g).nodes.contains_key(id@) && value_contents(p) == graph_contents(*g).nodes[id@].props,
            None => !graph_contents(*g).nodes.contains_key(id@),
        },
{
    g.get_node(&NodeId::new(id)).map(|n| n.props.clone())
}

/// The targets of the relations from `from` of kind `rel`, in order.
pub open spec fn rel_targets(rs: Seq<RelationView>, from: Seq<char>, rel: Seq<char>) -> Seq<Seq<char>>
    decreases rs.len(),
{
    if rs.len() == 0 {
        seq![]
    } else {
        let rest = rel_targets(rs.drop_last(), from, rel);
        if rs.last().from == from && rs.last().rel == rel {
            rest.push(rs.last().to)
        } else {
            rest
        }
    }
}

/// The targets of the relations from `from` of kind `rel`
/// (`Graph::outgoing` with `Some(rel)`). Claims they are `rel_targets` of the
/// graph's relations: those relations, in the graph's order.
#[verifier::external_body]
pub(crate) fn relation_targets(g: &Graph, from: &str, rel: &str) -> (r: Vec<String>)
    ensures
        strs(r@) == rel_targets(graph_contents(*g).relations, from@, rel@),
{
    g.outgoing(&NodeId::new(from), Some(rel)).into_iter().map(|r| r.to.0).collect()
}

/// Every graph equals itself.
pub proof fn lemma_graph_equal_refl(g: GraphView)
    ensures
        graph_equal(g, g),
{
    assert forall|k: Seq<char>| g.nodes.dom().contains(k) implies node_equal(#[trigger] g.nodes[k], g.nodes[k]) by {
        let n = g.nodes[k];
        lemma_json_equal_refl(n.props);
        assert forall|i: int| 0 <= i < n.artifacts.len() implies artifact_equal(#[trigger] n.artifacts[i], n.artifacts[i]) by {
            lemma_json_equal_refl(n.artifacts[i].metadata);
        }
    }
    assert forall|i: int| 0 <= i < g.relations.len() implies relation_equal(#[trigger] g.relations[i], g.relations[i]) by {
        lemma_json_equal_refl(g.relations[i].props);
    }
}

} // verus!
