//! The petgraph directed graph, as the analyses see it: a sequence of node
//! names and a sequence of edges (source index, target index), in insertion
//! order.

use vstd::prelude::*;
use petgraph::graph::{DiGraph, NodeIndex};
use petgraph::visit::EdgeRef;
use crate::graph::models::EdgeKind;
use crate::graph::analysis::reachable;

verus! {

#[verifier::external_type_specification]
#[verifier::external_body]
#[verifier::reject_recursive_types(N)]
#[verifier::reject_recursive_types(E)]
#[verifier::reject_recursive_types(Ty)]
#[verifier::reject_recursive_types(Ix)]
pub struct ExGraph<N, E, Ty, Ix>(petgraph::graph::Graph<N, E, Ty, Ix>);

#[verifier::external_type_specification]
#[verifier::external_body]
pub struct ExDirected(petgraph::Directed);

/// The node names of a graph, by node index.
pub uninterp spec fn graph_nodes(g: DiGraph<String, EdgeKind>) -> Seq<Seq<char>>;

/// The edges of a graph as (source index, target index), in insertion order.
pub uninterp spec fn graph_edges(g: DiGraph<String, EdgeKind>) -> Seq<(usize, usize)>;

/// Whether node `v` lies in one of the components.
pub open spec fn in_some(comps: Seq<Seq<usize>>, v: usize) -> bool {
    exists|c: int, i: int| 0 <= c < comps.len() && 0 <= i < comps[c].len() && #[trigger] comps[c][i] == v
}

/// Whether `comps` are the strongly connected components of a graph with
/// `n` nodes and these edges, in reverse topological order: every component
/// is non-empty, every node lies in exactly one component at one place, the
/// nodes of a component reach one another, a node that reaches a
/// component's node and is reached from it lies in that component, and no
/// edge leads from a component to a later one. The order of the nodes
/// within a component is left open.
pub open spec fn scc_ok(n: nat, edges: Seq<(usize, usize)>, comps: Seq<Seq<usize>>) -> bool {
    &&& forall|c: int| 0 <= c < comps.len() ==> #[trigger] comps[c].len() > 0
    &&& forall|c: int, i: int| 0 <= c < comps.len() && 0 <= i < comps[c].len() ==> #[trigger] comps[c][i] < n
    &&& forall|v: usize| v < n ==> #[trigger] in_some(comps, v)
    &&& forall|c1: int, i1: int, c2: int, i2: int|
        0 <= c1 < comps.len() && 0 <= i1 < comps[c1].len() && 0 <= c2 < comps.len() && 0 <= i2 < comps[c2].len()
            && #[trigger] comps[c1][i1] == #[trigger] comps[c2][i2] ==> c1 == c2 && i1 == i2
    &&& forall|c: int, i: int, j: int|
        0 <= c < comps.len() && 0 <= i < comps[c].len() && 0 <= j < comps[c].len() ==> reachable(
            edges,
            set![#[trigger] comps[c][i]],
            #[trigger] comps[c][j],
        )
    &&& forall|c: int, i: int, v: usize|
        0 <= c < comps.len() && 0 <= i < comps[c].len() && v < n && reachable(edges, set![#[trigger] comps[c][i]], v)
            && #[trigger] reachable(edges, set![v], comps[c][i]) ==> comps[c].contains(v)
    &&& forall|c1: int, c2: int, k: int|
        0 <= c1 < c2 < comps.len() && 0 <= k < edges.len() && #[trigger] comps[c1].contains(edges[k].0) ==> !#[trigger] comps[
            c2
        ].contains(edges[k].1)
}

/// Whether an edge leaves `i`.
pub open spec fn leaves(i: usize) -> spec_fn((usize, usize)) -> bool {
    |e: (usize, usize)| e.0 == i
}

/// Whether an edge enters `i`.
pub open spec fn enters(i: usize) -> spec_fn((usize, usize)) -> bool {
    |e: (usize, usize)| e.1 == i
}

/// Whether a node is another node than `i`.
pub open spec fn other_than(i: usize) -> spec_fn(usize) -> bool {
    |s: usize| s != i
}

/// Targets of the edges leaving `i`.
pub open spec fn out_targets_of(edges: Seq<(usize, usize)>, i: usize) -> Seq<usize> {
    edges.filter(leaves(i)).map_values(|e: (usize, usize)| e.1)
}

/// Sources of the edges entering `i`.
pub open spec fn in_sources_of(edges: Seq<(usize, usize)>, i: usize) -> Seq<usize> {
    edges.filter(enters(i)).map_values(|e: (usize, usize)| e.0)
}

/// `Graph::new`: an empty graph.
#[verifier::external_body]
pub(crate) fn graph_new() -> (g: DiGraph<String, EdgeKind>)
    ensures
        graph_nodes(g) == Seq::<Seq<char>>::empty(),
        graph_edges(g) == Seq::<(usize, usize)>::empty(),
{
    DiGraph::new()
}

/// `Graph::add_node`: appends a node; its index is the former node count.
/// petgraph panics when the `u32` index space is used up.
#[verifier::external_body]
pub(crate) fn graph_add_node(g: &mut DiGraph<String, EdgeKind>, name: String) -> (i: usize)
    requires
        graph_nodes(*old(g)).len() < u32::MAX,
    ensures
        i == graph_nodes(*old(g)).len(),
        graph_nodes(*final(g)) == graph_nodes(*old(g)).push(name@),
        graph_edges(*final(g)) == graph_edges(*old(g)),
{
    g.add_node(name).index()
}

/// `Graph::add_edge`: appends an edge from `a` to `b`. petgraph panics
/// when a node does not exist or the `u32` index space is used up.
#[verifier::external_body]
pub(crate) fn graph_add_edge(g: &mut DiGraph<String, EdgeKind>, a: usize, b: usize, kind: EdgeKind)
    requires
        a < graph_nodes(*old(g)).len(),
        b < graph_nodes(*old(g)).len(),
        graph_edges(*old(g)).len() < u32::MAX,
    ensures
        graph_nodes(*final(g)) == graph_nodes(*old(g)),
        graph_edges(*final(g)) == graph_edges(*old(g)).push((a, b)),
{
    g.add_edge(NodeIndex::new(a), NodeIndex::new(b), kind);
}

/// `Graph::node_count`. Every edge joins two nodes of the graph: petgraph
/// adds no edge to a missing node and drops a removed node's edges.
#[verifier::external_body]
pub(crate) fn graph_node_count(g: &DiGraph<String, EdgeKind>) -> (n: usize)
    ensures
        n == graph_nodes(*g).len(),
        forall|k: int| 0 <= k < graph_edges(*g).len() ==> #[trigger] graph_edges(*g)[k].0 < n && graph_edges(*g)[k].1 < n,
{
    g.node_count()
}

/// `graph[i]`: the name of node `i` (petgraph panics on a missing node).
#[verifier::external_body]
pub(crate) fn graph_node_name(g: &DiGraph<String, EdgeKind>, i: usize) -> (s: String)
    requires
        i < graph_nodes(*g).len(),
    ensures
        s@ == graph_nodes(*g)[i as int],
{
    g[NodeIndex::new(i)].clone()
}

/// `Graph::edges(i)` mapped to target indices: the targets of the edges
/// leaving `i`, each once per edge, in an order petgraph does not document.
/// Every target is a node of `g` (petgraph adds no edge to a missing node).
#[verifier::external_body]
pub(crate) fn graph_out_targets(g: &DiGraph<String, EdgeKind>, i: usize) -> (r: Vec<usize>)
    requires
        i < graph_nodes(*g).len(),
    ensures
        r@.to_multiset() == out_targets_of(graph_edges(*g), i).to_multiset(),
        forall|q: int| 0 <= q < r@.len() ==> #[trigger] r@[q] < graph_nodes(*g).len(),
{
    g.edges(NodeIndex::new(i)).map(|e| e.target().index()).collect()
}

/// `Graph::edges_directed(i, Incoming).count()`: the number of edges
/// entering `i` (an edge from `i` to itself included).
#[verifier::external_body]
pub(crate) fn graph_in_degree(g: &DiGraph<String, EdgeKind>, i: usize) -> (r: usize)
    requires
        i < graph_nodes(*g).len(),
    ensures
        r == in_sources_of(graph_edges(*g), i).len(),
{
    g.edges_directed(NodeIndex::new(i), petgraph::Direction::Incoming).count()
}

/// `Graph::edges_directed(i, Outgoing).count()`: the number of edges
/// leaving `i`.
#[verifier::external_body]
pub(crate) fn graph_out_degree(g: &DiGraph<String, EdgeKind>, i: usize) -> (r: usize)
    requires
        i < graph_nodes(*g).len(),
    ensures
        r == out_targets_of(graph_edges(*g), i).len(),
{
    g.edges_directed(NodeIndex::new(i), petgraph::Direction::Outgoing).count()
}

/// `Graph::neighbors_undirected(i)`: the targets of the edges leaving `i`
/// and the sources of the edges entering it from another node.
#[verifier::external_body]
pub(crate) fn graph_neighbors_undirected(g: &DiGraph<String, EdgeKind>, i: usize) -> (r: Vec<usize>)
    requires
        i < graph_nodes(*g).len(),
    ensures
        r@.to_multiset() == (out_targets_of(graph_edges(*g), i) + in_sources_of(graph_edges(*g), i).filter(
            other_than(i),
        )).to_multiset(),
        forall|q: int| 0 <= q < r@.len() ==> #[trigger] r@[q] < graph_nodes(*g).len(),
{
    g.neighbors_undirected(NodeIndex::new(i)).map(|n| n.index()).collect()
}

/// `petgraph::algo::kosaraju_scc`, with node indices as `usize`: the
/// strongly connected components of `g`, as its documentation describes
/// them (components in reverse topological order, the order within each
/// component arbitrary).
#[verifier::external_body]
pub(crate) fn graph_scc(g: &DiGraph<String, EdgeKind>) -> (r: Vec<Vec<usize>>)
    ensures
        scc_ok(graph_nodes(*g).len(), graph_edges(*g), r@.map_values(|c: Vec<usize>| c@)),
        forall|c: int, i: int| 0 <= c < r@.len() && 0 <= i < r@[c]@.len() ==> #[trigger] r@[c]@[i] < graph_nodes(*g).len(),
{
    petgraph::algo::kosaraju_scc(g).into_iter().map(|c| c.into_iter().map(|n| n.index()).collect()).collect()
}

} // verus!
