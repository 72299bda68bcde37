//! The similarity graph and its analysis.
//!
//! The graph has one node per row of the feature matrix and an edge between
//! two rows whose Euclidean distance is at most the threshold. Its analysis
//! gives shortest paths from a source and an estimate of the diameter from a
//! fixed sample of sources.

use vstd::prelude::*;
use crate::classes::{
    class_distribution, is_class_distribution, is_label_column, label_column, total,
    ClassDistribution,
};
use crate::data::{Cell, Dataset};
use crate::error::AnalysisError;
use crate::matrix::{matrix_rows, FeatureMatrix};
use crate::store::{
    add_edge, add_node, count_edges, count_nodes, dijkstra_from, graph_edges, graph_nodes,
    is_distance_table, is_shortest, lemma_shortest_unique, new_graph, reachable, weights_fit, Edge,
    SimilarityGraph,
};
use crate::util::{
    integer_sqrt, is_sqrt_floor, lemma_sqrt_floor_monotone, squared_distance, squared_sum,
};

verus! {

/// Two rows are joined when their distance is at most this: half a unit.
pub const THRESHOLD: u64 = 500_000;

/// The number of unordered pairs among `n` things.
pub open spec fn pair_count(n: nat) -> nat {
    (n * (n - 1) / 2) as nat
}

/// Rows `i` and `j` lie within the threshold of each other. Comparing the
/// squares is exact: no rounding of the root can tip the answer.
pub open spec fn similar(rows: Seq<Seq<i64>>, i: int, j: int) -> bool {
    squared_distance(rows[i], rows[j]) <= THRESHOLD * THRESHOLD
}

/// The edge joins two distinct rows, lower index first, that lie within the
/// threshold, and its weight is their distance: the square root of the
/// squared distance, rounded down.
pub open spec fn edge_is_sound(rows: Seq<Seq<i64>>, edge: Edge) -> bool {
    &&& edge.0 < edge.1 < rows.len()
    &&& similar(rows, edge.0 as int, edge.1 as int)
    &&& is_sqrt_floor(edge.2 as int, squared_distance(rows[edge.0 as int], rows[edge.1 as int]))
}

/// Some edge runs from node `i` to node `j`.
pub open spec fn has_edge(edges: Seq<Edge>, i: int, j: int) -> bool {
    exists|e: int| 0 <= e < edges.len() && (#[trigger] edges[e]).0 == i && edges[e].1 == j
}

/// Edge `a` joins a pair of nodes that comes before the pair of `b`, pairs
/// being ordered by first node and then by second.
pub open spec fn pair_before(a: Edge, b: Edge) -> bool {
    a.0 < b.0 || (a.0 == b.0 && a.1 < b.1)
}

/// The nodes and edges are those of the similarity graph of `rows`: node `i`
/// stands for row `i`; every edge is sound; every pair of rows within the
/// threshold has its edge; and the edges are in strictly ascending order of
/// their pairs, so no pair has two.
pub open spec fn is_similarity_graph(nodes: Seq<usize>, edges: Seq<Edge>, rows: Seq<Seq<i64>>) -> bool {
    &&& nodes == Seq::new(rows.len(), |i: int| i as usize)
    &&& forall|e: int| 0 <= e < edges.len() ==> edge_is_sound(rows, #[trigger] edges[e])
    &&& forall|i: int, j: int|
        0 <= i < j < rows.len() && similar(rows, i, j) ==> #[trigger] has_edge(edges, i, j)
    &&& forall|e: int, f: int|
        0 <= e < f < edges.len() ==> pair_before(#[trigger] edges[e], #[trigger] edges[f])
}

/// The number of rows after row `i` and before row `end` that lie within
/// the threshold of row `i`.
pub open spec fn similar_after(rows: Seq<Seq<i64>>, i: int, end: int) -> nat
    decreases end - i,
{
    if end <= i + 1 {
        0
    } else {
        similar_after(rows, i, end - 1) + if similar(rows, i, end - 1) {
            1nat
        } else {
            0nat
        }
    }
}

/// The number of pairs of rows within the threshold of each other whose
/// lower row comes before row `i`.
pub open spec fn similar_pairs(rows: Seq<Seq<i64>>, i: int) -> nat
    decreases i,
{
    if i <= 0 {
        0
    } else {
        similar_pairs(rows, i - 1) + similar_after(rows, i - 1, rows.len() as int)
    }
}

/// What `build_graph` needs of a matrix: its rows, and its pairs of rows
/// within the threshold, must be countable in 32 bits, for they become
/// nodes and edges.
pub open spec fn graph_fits(rows: Seq<Seq<i64>>) -> bool {
    &&& rows.len() <= u32::MAX
    &&& similar_pairs(rows, rows.len() as int) <= u32::MAX
}

/// The pairs counted up to a place in the sweep are among all the pairs.
pub proof fn lemma_similar_pairs_prefix(rows: Seq<Seq<i64>>, i: int, j: int)
    requires
        0 <= i < j <= rows.len(),
    ensures
        similar_pairs(rows, i) + similar_after(rows, i, j) <= similar_pairs(
            rows,
            rows.len() as int,
        ),
{
    lemma_similar_after_monotone(rows, i, j, rows.len() as int);
    lemma_similar_pairs_monotone(rows, i + 1, rows.len() as int);
}

/// Counting up to a later row counts no fewer rows.
proof fn lemma_similar_after_monotone(rows: Seq<Seq<i64>>, i: int, j: int, end: int)
    requires
        i < j <= end,
    ensures
        similar_after(rows, i, j) <= similar_after(rows, i, end),
    decreases end - j,
{
    if j < end {
        lemma_similar_after_monotone(rows, i, j, end - 1);
    }
}

/// Counting up to a later row counts no fewer pairs.
proof fn lemma_similar_pairs_monotone(rows: Seq<Seq<i64>>, i: int, end: int)
    requires
        0 <= i <= end,
    ensures
        similar_pairs(rows, i) <= similar_pairs(rows, end),
    decreases end - i,
{
    if i < end {
        lemma_similar_pairs_monotone(rows, i, end - 1);
    }
}

/// There are no more pairs within the threshold than there are pairs.
pub proof fn lemma_similar_pairs_bound(rows: Seq<Seq<i64>>)
    ensures
        similar_pairs(rows, rows.len() as int) <= pair_count(rows.len()),
{
    lemma_similar_pairs_left(rows, rows.len() as int);
    assert(pair_count(0) == 0) by (nonlinear_arith);
}

/// The pairs whose lower row comes before row `i`, and the pairs among the
/// rows from `i` on, are together no more than all pairs.
proof fn lemma_similar_pairs_left(rows: Seq<Seq<i64>>, i: int)
    requires
        0 <= i <= rows.len(),
    ensures
        similar_pairs(rows, i) + pair_count((rows.len() - i) as nat) <= pair_count(rows.len()),
    decreases i,
{
    if i > 0 {
        lemma_similar_pairs_left(rows, i - 1);
        lemma_similar_after_bound(rows, i - 1, rows.len() as int);
        lemma_pair_count_step((rows.len() - i) as nat);
    }
}

/// At most every row between `i` and `end` lies within the threshold.
proof fn lemma_similar_after_bound(rows: Seq<Seq<i64>>, i: int, end: int)
    requires
        i < end,
    ensures
        similar_after(rows, i, end) <= end - i - 1,
    decreases end - i,
{
    if end > i + 1 {
        lemma_similar_after_bound(rows, i, end - 1);
    }
}

/// Adding one thing to `n` adds `n` pairs.
pub proof fn lemma_pair_count_step(n: nat)
    ensures
        pair_count(n + 1) == pair_count(n) + n,
{
    assert((n + 1) * n == n * (n - 1) + 2 * n) by (nonlinear_arith);
    assert(n * (n - 1) >= 0) by (nonlinear_arith);
    lemma_neighbours_even(n);
}

/// The product of two neighbouring numbers is even.
proof fn lemma_neighbours_even(n: nat)
    ensures
        (n * (n - 1)) % 2 == 0,
    decreases n,
{
    if n == 0 {
        assert(n * (n - 1) == 0) by (nonlinear_arith)
            requires
                n == 0,
        ;
    } else {
        let m = (n - 1) as nat;
        lemma_neighbours_even(m);
        let lower = m * (m - 1);
        let upper = n * (n - 1);
        assert(upper == lower + 2 * m) by (nonlinear_arith)
            requires
                m == n - 1,
                lower == m * (m - 1),
                upper == n * (n - 1),
        ;
        assert(lower % 2 == 0);
        assert((lower + 2 * m) % 2 == 0);
    }
}

/// An edge that was there before a push is still there after it.
proof fn lemma_has_edge_push(edges: Seq<Edge>, edge: Edge, i: int, j: int)
    requires
        has_edge(edges, i, j),
    ensures
        has_edge(edges.push(edge), i, j),
{
    let e = choose|e: int| 0 <= e < edges.len() && (#[trigger] edges[e]).0 == i && edges[e].1 == j;
    assert(edges.push(edge)[e] == edges[e]);
}

/// The similarity graph of a feature matrix: a node for every row, and an
/// edge for every pair of rows whose distance is at most the threshold,
/// weighted by that distance.
pub fn build_graph(data: &FeatureMatrix) -> (graph: SimilarityGraph)
    requires
        graph_fits(data@),
    ensures
        is_similarity_graph(graph_nodes(&graph), graph_edges(&graph), data@),
        graph_edges(&graph).len() == similar_pairs(data@, data@.len() as int),
        weights_fit(graph_nodes(&graph).len(), graph_edges(&graph)),
{
    let n = data.nrows();
    let width = data.ncols();
    let limit: u128 = (THRESHOLD as u128) * (THRESHOLD as u128);
    let ghost rows = data@;
    let mut graph = new_graph();
    let mut k: usize = 0;
    while k < n
        invariant
            k <= n,
            n <= u32::MAX,
            graph_nodes(&graph) == Seq::new(k as nat, |i: int| i as usize),
            graph_edges(&graph) == Seq::<Edge>::empty(),
        decreases n - k,
    {
        add_node(&mut graph, k);
        k += 1;
        assert(graph_nodes(&graph) =~= Seq::new(k as nat, |i: int| i as usize));
    }
    let mut i: usize = 0;
    while i < n
        invariant
            i <= n,
            n == rows.len(),
            rows == matrix_rows(data),
            limit == THRESHOLD * THRESHOLD,
            graph_fits(rows),
            forall|r: int| 0 <= r < n ==> (#[trigger] rows[r]).len() == width,
            graph_nodes(&graph) == Seq::new(n as nat, |i: int| i as usize),
            graph_edges(&graph).len() == similar_pairs(rows, i as int),
            forall|e: int|
                0 <= e < graph_edges(&graph).len() ==> edge_is_sound(
                    rows,
                    #[trigger] graph_edges(&graph)[e],
                ),
            forall|e: int|
                0 <= e < graph_edges(&graph).len() ==> (#[trigger] graph_edges(&graph)[e]).0 < i,
            forall|a: int, b: int|
                0 <= a < b < n && a < i && similar(rows, a, b) ==> #[trigger] has_edge(
                    graph_edges(&graph),
                    a,
                    b,
                ),
            forall|e: int, f: int|
                0 <= e < f < graph_edges(&graph).len() ==> pair_before(
                    #[trigger] graph_edges(&graph)[e],
                    #[trigger] graph_edges(&graph)[f],
                ),
        decreases n - i,
    {
        let here = data.row_to_vec(i);
        let mut j: usize = i + 1;
        while j < n
            invariant
                i < j <= n,
                n == rows.len(),
                rows == matrix_rows(data),
                limit == THRESHOLD * THRESHOLD,
                graph_fits(rows),
                here@ == rows[i as int],
                forall|r: int| 0 <= r < n ==> (#[trigger] rows[r]).len() == width,
                graph_nodes(&graph) == Seq::new(n as nat, |i: int| i as usize),
                graph_edges(&graph).len() == similar_pairs(rows, i as int) + similar_after(
                    rows,
                    i as int,
                    j as int,
                ),
                forall|e: int|
                    0 <= e < graph_edges(&graph).len() ==> edge_is_sound(
                        rows,
                        #[trigger] graph_edges(&graph)[e],
                    ),
                forall|e: int|
                    0 <= e < graph_edges(&graph).len() ==> (#[trigger] graph_edges(&graph)[e]).0
                        < i || (graph_edges(&graph)[e].0 == i && graph_edges(&graph)[e].1 < j),
                forall|a: int, b: int|
                    0 <= a < b < n && (a < i || (a == i && b < j)) && similar(rows, a, b)
                        ==> #[trigger] has_edge(graph_edges(&graph), a, b),
                forall|e: int, f: int|
                    0 <= e < f < graph_edges(&graph).len() ==> pair_before(
                        #[trigger] graph_edges(&graph)[e],
                        #[trigger] graph_edges(&graph)[f],
                    ),
            decreases n - j,
        {
            let there = data.row_to_vec(j);
            let ghost before = graph_edges(&graph);
            proof {
                lemma_similar_pairs_prefix(rows, i as int, j as int + 1);
            }
            let within = match squared_sum(&here, &there) {
                Some(square) => if square <= limit {
                    Some(square)
                } else {
                    None
                },
                None => None,
            };
            if let Some(square) = within {
                let weight = integer_sqrt(square);
                add_edge(&mut graph, i, j, weight);
                proof {
                    let edge: Edge = (i, j, weight);
                    let after = graph_edges(&graph);
                    assert(after == before.push(edge));
                    assert(edge_is_sound(rows, edge));
                    assert(after[before.len() as int] == edge);
                    assert forall|a: int, b: int|
                        0 <= a < b < n && (a < i || (a == i && b < j + 1)) && similar(
                            rows,
                            a,
                            b,
                        ) implies #[trigger] has_edge(after, a, b) by {
                        if a == i && b == j {
                            assert(after[before.len() as int].0 == a);
                        } else {
                            lemma_has_edge_push(before, edge, a, b);
                        }
                    }
                }
            }
            j += 1;
        }
        i += 1;
    }
    proof {
        lemma_similarity_weights_fit(graph_nodes(&graph), graph_edges(&graph), rows);
    }
    graph
}

/// In a similarity graph every edge joins two distinct rows whose distance
/// is at most the threshold, and carries a weight of at most the threshold;
/// two rows farther apart than the threshold have no edge between them.
pub proof fn lemma_edges_match_threshold(nodes: Seq<usize>, edges: Seq<Edge>, rows: Seq<Seq<i64>>)
    requires
        is_similarity_graph(nodes, edges, rows),
    ensures
        forall|e: int|
            0 <= e < edges.len() ==> {
                &&& (#[trigger] edges[e]).0 != edges[e].1
                &&& similar(rows, edges[e].0 as int, edges[e].1 as int)
                &&& edges[e].2 <= THRESHOLD
            },
        forall|i: int, j: int| !similar(rows, i, j) ==> !#[trigger] has_edge(edges, i, j),
        forall|i: int, j: int| i >= j ==> !#[trigger] has_edge(edges, i, j),
{
    assert forall|e: int| 0 <= e < edges.len() implies (#[trigger] edges[e]).2 <= THRESHOLD by {
        assert(edge_is_sound(rows, edges[e]));
        assert(is_sqrt_floor(THRESHOLD as int, THRESHOLD * THRESHOLD)) by (nonlinear_arith)
            requires
                THRESHOLD == 500_000,
        ;
        lemma_sqrt_floor_monotone(
            edges[e].2 as int,
            squared_distance(rows[edges[e].0 as int], rows[edges[e].1 as int]),
            THRESHOLD as int,
            THRESHOLD * THRESHOLD,
        );
    }
    assert forall|i: int, j: int| !similar(rows, i, j) implies !#[trigger] has_edge(edges, i, j) by {
        if has_edge(edges, i, j) {
            let e = choose|e: int| 0 <= e < edges.len() && (#[trigger] edges[e]).0 == i && edges[e].1 == j;
            assert(edge_is_sound(rows, edges[e]));
        }
    }
    assert forall|i: int, j: int| i >= j implies !#[trigger] has_edge(edges, i, j) by {
        if has_edge(edges, i, j) {
            let e = choose|e: int| 0 <= e < edges.len() && (#[trigger] edges[e]).0 == i && edges[e].1 == j;
            assert(edge_is_sound(rows, edges[e]));
        }
    }
}

/// The weights of a similarity graph are small enough for path sums.
pub proof fn lemma_similarity_weights_fit(nodes: Seq<usize>, edges: Seq<Edge>, rows: Seq<Seq<i64>>)
    requires
        is_similarity_graph(nodes, edges, rows),
        rows.len() <= u32::MAX,
    ensures
        weights_fit(nodes.len(), edges),
{
    lemma_edges_match_threshold(nodes, edges, rows);
    assert forall|e: int| 0 <= e < edges.len() implies (#[trigger] edges[e]).2 * nodes.len()
        <= u64::MAX by {
        let w = edges[e].2;
        let n = nodes.len();
        assert(w * n <= 500_000 * 0xffff_ffff) by (nonlinear_arith)
            requires
                0 <= w <= 500_000,
                0 <= n <= 0xffff_ffff,
        ;
    }
}

/// Whether a graph on `n` nodes can hold an edge for every pair of them.
pub fn pairs_fit(n: usize) -> (ok: bool)
    ensures
        ok == (n <= u32::MAX && pair_count(n as nat) <= u32::MAX),
{
    if n == 0 {
        assert(pair_count(0) == 0) by (nonlinear_arith);
        return true;
    }
    if n > 0xffff_ffff {
        return false;
    }
    let wide: u64 = n as u64;
    assert(wide * (wide - 1) <= 0xffff_ffff * 0xffff_ffff) by (nonlinear_arith)
        requires
            1 <= wide <= 0xffff_ffff,
    ;
    let pairs: u64 = wide * (wide - 1) / 2;
    pairs <= 0xffff_ffff
}

/// Whether the matrix has few enough rows for `build_graph` whatever its
/// cells hold: a graph on that many nodes can hold an edge for every pair.
pub fn can_build(data: &FeatureMatrix) -> (ok: bool)
    ensures
        ok == (data@.len() <= u32::MAX && pair_count(data@.len()) <= u32::MAX),
        ok ==> graph_fits(data@),
{
    proof {
        lemma_similar_pairs_bound(data@);
    }
    pairs_fit(data.nrows())
}

/// The number of sources from which the diameter is estimated.
pub const DIAMETER_SAMPLE: usize = 100;

/// The greatest shortest-path distance found, and the pair of nodes that
/// gave it.
#[derive(Clone, Copy, Debug, PartialEq, Eq, Structural)]
pub struct DiameterEstimate {
    pub max_distance: u64,
    pub source: usize,
    pub target: usize,
}

/// What the analysis of a graph and its dataset yields.
pub struct Analysis {
    pub node_count: usize,
    pub edge_count: usize,
    /// Shortest-path distances from node 0, by node; `None` for a node that
    /// cannot be reached.
    pub distances: Vec<Option<u64>>,
    /// The position of the label column in the header, if the header has it.
    pub label_column: Option<usize>,
    /// The distribution of the labels, if there is a label column.
    pub classes: Option<ClassDistribution>,
    pub diameter: DiameterEstimate,
}

/// The pair `(s, v)` comes before the pair `(t, w)` in the order in which
/// the sweep visits them: ascending source, then ascending target.
pub open spec fn visited_before(s: int, v: int, t: int, w: int) -> bool {
    s < t || (s == t && v < w)
}

/// `estimate` is what a sweep over the sources `0..sampled` finds: its
/// distance bounds every shortest distance from a sampled source; it is zero
/// with the pair `(0, 0)` when no such distance is positive; and otherwise
/// it is the shortest distance of its pair, which is the first pair in
/// visiting order to reach it.
pub open spec fn is_furthest(
    node_count: nat,
    edges: Seq<Edge>,
    sampled: nat,
    estimate: DiameterEstimate,
) -> bool {
    &&& forall|s: int, v: int, d: int|
        0 <= s < sampled && 0 <= v < node_count && #[trigger] is_shortest(edges, s, v, d) ==> d
            <= estimate.max_distance
    &&& if estimate.max_distance == 0 {
        estimate.source == 0 && estimate.target == 0
    } else {
        &&& estimate.source < sampled
        &&& estimate.target < node_count
        &&& is_shortest(
            edges,
            estimate.source as int,
            estimate.target as int,
            estimate.max_distance as int,
        )
        &&& forall|s: int, v: int, d: int|
            0 <= s && 0 <= v < node_count && visited_before(
                s,
                v,
                estimate.source as int,
                estimate.target as int,
            ) && #[trigger] is_shortest(edges, s, v, d) ==> d < estimate.max_distance
    }
}

/// The shortest-path distance from `source` to every node that it reaches.
///
/// Fails with `InvalidNode` when the graph has no node `source`.
pub fn shortest_paths_from(graph: &SimilarityGraph, source: usize) -> (result: Result<
    Vec<Option<u64>>,
    AnalysisError,
>)
    requires
        weights_fit(graph_nodes(graph).len(), graph_edges(graph)),
    ensures
        match result {
            Ok(table) => source < graph_nodes(graph).len() && is_distance_table(
                graph_nodes(graph).len(),
                graph_edges(graph),
                source as int,
                table@,
            ),
            Err(e) => e == AnalysisError::InvalidNode && source >= graph_nodes(graph).len(),
        },
{
    if source >= count_nodes(graph) {
        return Err(AnalysisError::InvalidNode);
    }
    Ok(dijkstra_from(graph, source))
}

/// The greater of the running estimate and the distances of one table.
///
/// `table` holds the shortest distances from `source`. The result keeps
/// `best` unless the table holds a greater distance, and then names the
/// first target that holds the greatest.
pub fn furthest_in_table(table: &Vec<Option<u64>>, source: usize, best: DiameterEstimate) -> (next:
    DiameterEstimate)
    ensures
        next.max_distance >= best.max_distance,
        forall|v: int|
            0 <= v < table.len() ==> match #[trigger] table@[v] {
                Some(d) => d <= next.max_distance,
                None => true,
            },
        if forall|v: int|
            0 <= v < table.len() ==> match #[trigger] table@[v] {
                Some(d) => d <= best.max_distance,
                None => true,
            } {
            next == best
        } else {
            &&& next.source == source
            &&& next.target < table.len()
            &&& next.max_distance > best.max_distance
            &&& table@[next.target as int] == Some(next.max_distance)
            &&& forall|v: int|
                0 <= v < next.target ==> match #[trigger] table@[v] {
                    Some(d) => d < next.max_distance,
                    None => true,
                }
        },
{
    let mut next = best;
    let mut v: usize = 0;
    while v < table.len()
        invariant
            v <= table.len(),
            next.max_distance >= best.max_distance,
            forall|w: int|
                0 <= w < v ==> match #[trigger] table@[w] {
                    Some(d) => d <= next.max_distance,
                    None => true,
                },
            if next == best {
                forall|w: int|
                    0 <= w < v ==> match #[trigger] table@[w] {
                        Some(d) => d <= best.max_distance,
                        None => true,
                    }
            } else {
                &&& next.source == source
                &&& next.target < v
                &&& next.max_distance > best.max_distance
                &&& table@[next.target as int] == Some(next.max_distance)
                &&& forall|w: int|
                    0 <= w < next.target ==> match #[trigger] table@[w] {
                        Some(d) => d < next.max_distance,
                        None => true,
                    }
            },
        decreases table.len() - v,
    {
        match table[v] {
            Some(d) => {
                if d > next.max_distance {
                    next = DiameterEstimate { max_distance: d, source: source, target: v };
                }
            },
            None => {},
        }
        v += 1;
    }
    proof {
        if next != best {
            assert(match table@[next.target as int] {
                Some(d) => d > best.max_distance,
                None => false,
            });
        }
    }
    next
}

/// An estimate of the diameter: the greatest shortest-path distance from
/// any of the first `sample_size` nodes, with the pair that gave it.
///
/// Pairs are visited by ascending source and then ascending target, and of
/// several pairs with the greatest distance the first one visited is named.
/// Nodes that cannot reach each other contribute nothing.
pub fn find_furthest_pair(graph: &SimilarityGraph, sample_size: usize) -> (estimate:
    DiameterEstimate)
    requires
        weights_fit(graph_nodes(graph).len(), graph_edges(graph)),
    ensures
        is_furthest(
            graph_nodes(graph).len(),
            graph_edges(graph),
            if sample_size <= graph_nodes(graph).len() {
                sample_size as nat
            } else {
                graph_nodes(graph).len()
            },
            estimate,
        ),
{
    let n = count_nodes(graph);
    let sampled = if sample_size <= n {
        sample_size
    } else {
        n
    };
    let ghost edges = graph_edges(graph);
    let mut estimate = DiameterEstimate { max_distance: 0, source: 0, target: 0 };
    let mut s: usize = 0;
    while s < sampled
        invariant
            s <= sampled <= n,
            n == graph_nodes(graph).len(),
            edges == graph_edges(graph),
            weights_fit(graph_nodes(graph).len(), graph_edges(graph)),
            is_furthest(n as nat, edges, s as nat, estimate),
        decreases sampled - s,
    {
        let table = dijkstra_from(graph, s);
        let next = furthest_in_table(&table, s, estimate);
        proof {
            assert forall|t: int, v: int, d: int|
                0 <= t < s + 1 && 0 <= v < n && #[trigger] is_shortest(edges, t, v, d) implies d
                <= next.max_distance by {
                if t == s {
                    lemma_table_entry(n as nat, edges, s as int, table@, v, d);
                }
            }
            if next != estimate {
                assert(next.max_distance > 0);
                assert forall|t: int, v: int, d: int|
                    0 <= t && 0 <= v < n && visited_before(
                        t,
                        v,
                        next.source as int,
                        next.target as int,
                    ) && #[trigger] is_shortest(edges, t, v, d) implies d < next.max_distance by {
                    if t == s {
                        lemma_table_entry(n as nat, edges, s as int, table@, v, d);
                    }
                }
            }
        }
        estimate = next;
        s += 1;
    }
    estimate
}

/// A shortest distance from the table's source is what the table holds.
proof fn lemma_table_entry(
    node_count: nat,
    edges: Seq<Edge>,
    source: int,
    table: Seq<Option<u64>>,
    v: int,
    d: int,
)
    requires
        is_distance_table(node_count, edges, source, table),
        0 <= v < node_count,
        is_shortest(edges, source, v, d),
    ensures
        table[v] is Some,
        table[v]->0 == d,
{
    match table[v] {
        Some(held) => {
            lemma_shortest_unique(edges, source, v, d, held as int);
        },
        None => {
            assert(reachable(edges, source, v));
        },
    }
}

/// The number of sources that the diameter estimate sweeps in a graph of
/// `node_count` nodes.
pub open spec fn sampled_sources(node_count: nat) -> nat {
    if DIAMETER_SAMPLE <= node_count {
        DIAMETER_SAMPLE as nat
    } else {
        node_count
    }
}

/// `analysis` is the analysis of a graph with the given nodes and edges and
/// of a table with the given header and rows.
pub open spec fn is_analysis(
    node_count: nat,
    edges: Seq<Edge>,
    headers: Seq<String>,
    records: Seq<Vec<Cell>>,
    analysis: Analysis,
) -> bool {
    &&& analysis.node_count == node_count
    &&& analysis.edge_count == edges.len()
    &&& is_distance_table(node_count, edges, 0, analysis.distances@)
    &&& is_label_column(headers, analysis.label_column)
    &&& match analysis.label_column {
        Some(k) => analysis.classes is Some && is_class_distribution(
            records,
            k as int,
            analysis.classes->0,
        ) && total(analysis.classes->0.counts@) == records.len(),
        None => analysis.classes is None,
    }
    &&& is_furthest(node_count, edges, sampled_sources(node_count), analysis.diameter)
}

/// The analysis of a graph and the dataset it was built from: the sizes of
/// the graph, the shortest-path distances from node 0, the distribution of
/// the labels if the header names a label column, and the estimate of the
/// diameter from the first `DIAMETER_SAMPLE` nodes.
///
/// Fails with `InvalidNode` when the graph has no node 0.
pub fn analyze_graph(graph: &SimilarityGraph, dataset: &Dataset) -> (result: Result<
    Analysis,
    AnalysisError,
>)
    requires
        weights_fit(graph_nodes(graph).len(), graph_edges(graph)),
    ensures
        match result {
            Ok(analysis) => graph_nodes(graph).len() > 0 && is_analysis(
                graph_nodes(graph).len(),
                graph_edges(graph),
                dataset.headers@,
                dataset.records@,
                analysis,
            ),
            Err(e) => e == AnalysisError::InvalidNode && graph_nodes(graph).len() == 0,
        },
{
    let distances = match shortest_paths_from(graph, 0) {
        Ok(table) => table,
        Err(e) => {
            return Err(e);
        },
    };
    let label = label_column(&dataset.headers);
    let classes = match label {
        Some(k) => Some(class_distribution(&dataset.records, k)),
        None => None,
    };
    let diameter = find_furthest_pair(graph, DIAMETER_SAMPLE);
    Ok(
        Analysis {
            node_count: count_nodes(graph),
            edge_count: count_edges(graph),
            distances,
            label_column: label,
            classes,
            diameter,
        },
    )
}

} // verus!
