//! The directed multigraph under a congress, kept by the `petgraph` crate.
//!
//! The contracts of the functions in this file are not proved: they state
//! what the library relies on `petgraph` to do. Everything else about the
//! congress is proved from them.

use petgraph::graph::{Graph, NodeIndex};
use petgraph::visit::EdgeRef;
use petgraph::{Directed, Direction};
use vstd::prelude::*;

verus! {

/// `petgraph::graph::Graph`, opaque to the proofs.
#[verifier::external_type_specification]
#[verifier::external_body]
#[verifier::reject_recursive_types(N)]
#[verifier::reject_recursive_types(E)]
#[verifier::reject_recursive_types(Ty)]
#[verifier::reject_recursive_types(Ix)]
pub struct ExGraph<N, E, Ty, Ix>(Graph<N, E, Ty, Ix>);

/// `petgraph::Directed`, the marker of graphs with directed edges.
#[verifier::external_type_specification]
#[verifier::external_body]
pub struct ExDirected(Directed);

/// The node weights of a graph, by node index. Stands for what the graph
/// holds; the contracts below say how each call changes it.
pub uninterp spec fn graph_nodes(g: Graph<usize, usize, Directed, u32>) -> Seq<usize>;

/// The edges of a graph, by edge index: source, target and weight of each.
/// Stands for what the graph holds, as `graph_nodes` does.
pub uninterp spec fn graph_edges(g: Graph<usize, usize, Directed, u32>) -> Seq<(usize, usize, usize)>;

/// Source and weight of the edges among `edges` that point to `node`, the
/// edge added last first. An edge is its source, its target and its weight.
pub open spec fn incoming_of<E>(edges: Seq<(usize, usize, E)>, node: usize) -> Seq<(usize, E)>
    decreases edges.len(),
{
    if edges.len() == 0 {
        Seq::empty()
    } else {
        let last = edges.last();
        let earlier = incoming_of(edges.drop_last(), node);
        if last.1 == node {
            seq![(last.0, last.2)] + earlier
        } else {
            earlier
        }
    }
}

/// `Graph::new`: a directed graph without nodes and edges.
#[verifier::external_body]
pub(crate) fn graph_new() -> (g: Graph<usize, usize, Directed, u32>)
    ensures
        graph_nodes(g) == Seq::<usize>::empty(),
        graph_edges(g) == Seq::<(usize, usize, usize)>::empty(),
{
    Graph::new()
}

/// `Graph::node_count`: the number of nodes.
#[verifier::external_body]
pub(crate) fn graph_node_count(g: &Graph<usize, usize, Directed, u32>) -> (n: usize)
    ensures
        n == graph_nodes(*g).len(),
{
    g.node_count()
}

/// `Graph::add_node`: appends a node with the given weight and returns its
/// index, which is the number of nodes before the call. The edges stay.
/// The call panics once the index type is exhausted, which the
/// precondition rules out.
#[verifier::external_body]
pub(crate) fn graph_add_node(
    g: &mut Graph<usize, usize, Directed, u32>,
    weight: usize,
) -> (index: usize)
    requires
        graph_nodes(*old(g)).len() < u32::MAX,
    ensures
        graph_nodes(*final(g)) == graph_nodes(*old(g)).push(weight),
        graph_edges(*final(g)) == graph_edges(*old(g)),
        index == graph_nodes(*old(g)).len(),
{
    g.add_node(weight).index()
}

/// `Graph::add_edge`: appends an edge between two existing nodes. The nodes
/// and the earlier edges stay. The call panics on a missing node or once
/// the index type is exhausted, which the preconditions rule out.
#[verifier::external_body]
pub(crate) fn graph_add_edge(
    g: &mut Graph<usize, usize, Directed, u32>,
    from: usize,
    to: usize,
    weight: usize,
)
    requires
        from < graph_nodes(*old(g)).len(),
        to < graph_nodes(*old(g)).len(),
        graph_edges(*old(g)).len() < u32::MAX,
    ensures
        graph_nodes(*final(g)) == graph_nodes(*old(g)),
        graph_edges(*final(g)) == graph_edges(*old(g)).push((from, to, weight)),
{
    g.add_edge(NodeIndex::new(from), NodeIndex::new(to), weight);
}

/// `Graph::edges_directed` with `Direction::Incoming`: the edges that point
/// to `node`, walked from the one added last to the one added first, each
/// handed out as its source's index and its weight.
#[verifier::external_body]
pub(crate) fn graph_incoming(
    g: &Graph<usize, usize, Directed, u32>,
    node: usize,
) -> (found: Vec<(usize, usize)>)
    requires
        node < graph_nodes(*g).len(),
    ensures
        found@ == incoming_of(graph_edges(*g), node),
{
    g.edges_directed(NodeIndex::new(node), Direction::Incoming).map(
        |edge| (edge.source().index(), *edge.weight()),
    ).collect()
}

} // verus!
