//! The graph store: a `petgraph` undirected graph and what the rest of the
//! crate may assume of it.
//!
//! Verus cannot look inside the graph, so it is described by two
//! uninterpreted functions, its node weights and its edges in order of
//! insertion, and every call into `petgraph` goes through one of the small
//! trusted functions below. The module also says what a walk and a shortest
//! distance in such a graph are, since the contract of the shortest-path
//! search speaks of them.

use vstd::prelude::*;

verus! {

/// Makes `petgraph::graph::Graph` known to Verus, as a type whose inside it
/// does not read.
#[verifier::external_type_specification]
#[verifier::external_body]
#[verifier::reject_recursive_types(N)]
#[verifier::reject_recursive_types(E)]
#[verifier::reject_recursive_types(Ty)]
#[verifier::reject_recursive_types(Ix)]
pub struct ExGraph<N, E, Ty, Ix>(petgraph::graph::Graph<N, E, Ty, Ix>);

/// Makes `petgraph::Undirected`, the marker of undirected graphs, known to
/// Verus.
#[verifier::external_type_specification]
#[verifier::external_body]
pub struct ExUndirected(petgraph::Undirected);

/// An undirected graph whose nodes carry a row index and whose edges carry a
/// fixed-point distance.
pub type SimilarityGraph = petgraph::graph::Graph<usize, u64, petgraph::Undirected, u32>;

/// An edge as the contracts see it: the indices of its two end nodes, in
/// the order in which they were given, and its weight.
pub type Edge = (usize, usize, u64);

/// The weights of the nodes, by node index.
pub uninterp spec fn graph_nodes(g: &SimilarityGraph) -> Seq<usize>;

/// The edges, by edge index, which is the order of insertion.
pub uninterp spec fn graph_edges(g: &SimilarityGraph) -> Seq<Edge>;

/// Calls `petgraph::graph::Graph::new_undirected`.
///
/// Trusted: the new graph has no nodes and no edges.
#[verifier::external_body]
pub(crate) fn new_graph() -> (g: SimilarityGraph)
    ensures
        graph_nodes(&g) == Seq::<usize>::empty(),
        graph_edges(&g) == Seq::<Edge>::empty(),
{
    petgraph::graph::Graph::new_undirected()
}

/// Calls `petgraph::graph::Graph::add_node` and returns the index of the new
/// node.
///
/// Trusted: the node is appended, so its index is the former node count;
/// the edges stay. `add_node` panics once the indices of 32 bits are used
/// up, which the precondition rules out.
#[verifier::external_body]
pub(crate) fn add_node(g: &mut SimilarityGraph, weight: usize) -> (index: usize)
    requires
        graph_nodes(old(g)).len() < u32::MAX,
    ensures
        index == graph_nodes(old(g)).len(),
        graph_nodes(final(g)) == graph_nodes(old(g)).push(weight),
        graph_edges(final(g)) == graph_edges(old(g)),
{
    g.add_node(weight).index()
}

/// Calls `petgraph::graph::Graph::add_edge` on the nodes with the given
/// indices.
///
/// Trusted: the edge is appended; the nodes stay. `add_edge` panics when an
/// end node does not exist or the indices of 32 bits are used up, which the
/// preconditions rule out.
#[verifier::external_body]
pub(crate) fn add_edge(g: &mut SimilarityGraph, from: usize, to: usize, weight: u64)
    requires
        from < graph_nodes(old(g)).len(),
        to < graph_nodes(old(g)).len(),
        graph_edges(old(g)).len() < u32::MAX,
    ensures
        graph_nodes(final(g)) == graph_nodes(old(g)),
        graph_edges(final(g)) == graph_edges(old(g)).push((from, to, weight)),
{
    g.add_edge(petgraph::graph::NodeIndex::new(from), petgraph::graph::NodeIndex::new(to), weight);
}

/// Calls `petgraph::graph::Graph::node_count`.
///
/// Trusted: it is the number of nodes.
#[verifier::external_body]
pub(crate) fn count_nodes(g: &SimilarityGraph) -> (n: usize)
    ensures
        n == graph_nodes(g).len(),
{
    g.node_count()
}

/// Calls `petgraph::graph::Graph::edge_count`.
///
/// Trusted: it is the number of edges.
#[verifier::external_body]
pub(crate) fn count_edges(g: &SimilarityGraph) -> (n: usize)
    ensures
        n == graph_edges(g).len(),
{
    g.edge_count()
}

/// The edge joins the nodes `from` and `to`, in either direction.
pub open spec fn joins(edge: Edge, from: int, to: int) -> bool {
    (edge.0 == from && edge.1 == to) || (edge.0 == to && edge.1 == from)
}

/// `steps` names edges that lead along `nodes`, one edge from each node to
/// the next.
pub open spec fn is_walk(edges: Seq<Edge>, nodes: Seq<int>, steps: Seq<int>) -> bool {
    &&& nodes.len() == steps.len() + 1
    &&& forall|k: int|
        0 <= k < steps.len() ==> 0 <= #[trigger] steps[k] < edges.len() && joins(
            edges[steps[k]],
            nodes[k],
            nodes[k + 1],
        )
}

/// The walk starts at `from` and ends at `to`.
pub open spec fn connects(edges: Seq<Edge>, nodes: Seq<int>, steps: Seq<int>, from: int, to: int) -> bool {
    is_walk(edges, nodes, steps) && nodes.first() == from && nodes.last() == to
}

/// The sum of the weights of the edges that `steps` names.
pub open spec fn walk_cost(edges: Seq<Edge>, steps: Seq<int>) -> int
    decreases steps.len(),
{
    if steps.len() == 0 {
        0
    } else {
        walk_cost(edges, steps.drop_last()) + edges[steps.last()].2
    }
}

/// Some walk leads from `from` to `to`.
pub open spec fn reachable(edges: Seq<Edge>, from: int, to: int) -> bool {
    exists|nodes: Seq<int>, steps: Seq<int>| #[trigger] connects(edges, nodes, steps, from, to)
}

/// `cost` is the length of a shortest walk from `from` to `to`: some walk
/// costs that much and none costs less.
pub open spec fn is_shortest(edges: Seq<Edge>, from: int, to: int, cost: int) -> bool {
    &&& exists|nodes: Seq<int>, steps: Seq<int>| #[trigger]
        connects(edges, nodes, steps, from, to) && walk_cost(edges, steps) == cost
    &&& forall|nodes: Seq<int>, steps: Seq<int>| #[trigger]
        connects(edges, nodes, steps, from, to) ==> cost <= walk_cost(edges, steps)
}

/// `table` holds, for every node, the length of a shortest walk from
/// `source` to it, and nothing for a node that no walk reaches.
pub open spec fn is_distance_table(
    node_count: nat,
    edges: Seq<Edge>,
    source: int,
    table: Seq<Option<u64>>,
) -> bool {
    &&& table.len() == node_count
    &&& forall|v: int|
        0 <= v < node_count ==> match #[trigger] table[v] {
            Some(d) => is_shortest(edges, source, v, d as int),
            None => !reachable(edges, source, v),
        }
}

/// No walk without a repeated node can cost more than 64 bits hold: every
/// weight times the number of nodes fits.
pub open spec fn weights_fit(node_count: nat, edges: Seq<Edge>) -> bool {
    forall|e: int| 0 <= e < edges.len() ==> (#[trigger] edges[e]).2 * node_count <= u64::MAX
}

/// Calls `petgraph::algo::dijkstra` from the node with index `source`,
/// without a goal and with each edge's weight as its cost, and lays the
/// map it returns out by node index.
///
/// Trusted: the map holds exactly the nodes that a walk from the source
/// reaches, each with the length of a shortest such walk. `dijkstra` adds
/// the cost of an edge to the final distance of a node, which by
/// `weights_fit` cannot overflow, and panics on a start node outside the
/// graph, which the precondition rules out.
#[verifier::external_body]
pub(crate) fn dijkstra_from(g: &SimilarityGraph, source: usize) -> (table: Vec<Option<u64>>)
    requires
        source < graph_nodes(g).len(),
        weights_fit(graph_nodes(g).len(), graph_edges(g)),
    ensures
        is_distance_table(graph_nodes(g).len(), graph_edges(g), source as int, table@),
{
    let start = petgraph::graph::NodeIndex::new(source);
    let found = petgraph::algo::dijkstra(g, start, None, |e| *e.weight());
    (0..g.node_count()).map(|v| found.get(&petgraph::graph::NodeIndex::new(v)).copied()).collect()
}

/// Two shortest lengths between the same nodes are equal.
pub proof fn lemma_shortest_unique(edges: Seq<Edge>, from: int, to: int, a: int, b: int)
    requires
        is_shortest(edges, from, to, a),
        is_shortest(edges, from, to, b),
    ensures
        a == b,
{
}

} // verus!
