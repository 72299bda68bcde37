use petgraph::graph::UnGraph;
use petgraph::visit::EdgeRef;
use simgraph::graph::{build_graph, can_build, pairs_fit, THRESHOLD};
use simgraph::matrix::FeatureMatrix;
use simgraph::util::{euclidean_distance, squared_sum, SCALE};

fn edges_of(g: &UnGraph<usize, u64>) -> Vec<(usize, usize, u64)> {
    g.edge_references().map(|e| (e.source().index(), e.target().index(), *e.weight())).collect()
}

fn matrix(rows: &[&[i64]]) -> FeatureMatrix {
    FeatureMatrix::from_rows(&rows.iter().map(|r| r.to_vec()).collect()).unwrap()
}

#[test]
fn threshold_is_half_a_unit() {
    assert_eq!(THRESHOLD as i64 * 2, SCALE);
}

#[test]
fn graph_has_a_node_per_row_weighted_by_its_index() {
    let g = build_graph(&matrix(&[&[0], &[SCALE], &[2 * SCALE]]));
    assert_eq!(g.node_count(), 3);
    let weights: Vec<usize> = g.node_weights().cloned().collect();
    assert_eq!(weights, vec![0, 1, 2]);
    assert_eq!(g.edge_count(), 0);
    assert!(!g.is_directed());
}

#[test]
fn empty_matrix_gives_an_empty_graph() {
    let g = build_graph(&matrix(&[]));
    assert_eq!(g.node_count(), 0);
    assert_eq!(g.edge_count(), 0);
}

#[test]
fn edge_exists_exactly_when_distance_is_within_threshold() {
    let rows: Vec<Vec<i64>> = vec![
        vec![0, 0],
        vec![300_000, 400_000],
        vec![300_000, 400_001],
        vec![900_000, 400_000],
        vec![0, 0],
    ];
    let m = FeatureMatrix::from_rows(&rows).unwrap();
    let g = build_graph(&m);
    let edges = edges_of(&g);
    let limit = (THRESHOLD as u128) * (THRESHOLD as u128);
    let mut expected = Vec::new();
    for i in 0..rows.len() {
        for j in (i + 1)..rows.len() {
            if squared_sum(&rows[i], &rows[j]).unwrap() <= limit {
                expected.push((i, j, euclidean_distance(rows[i].clone(), rows[j].clone())));
            }
        }
    }
    assert_eq!(edges, expected);
    assert_eq!(
        edges,
        vec![(0, 1, 500_000), (0, 4, 0), (1, 2, 1), (1, 4, 500_000)]
    );
    for (i, j, w) in edges {
        assert!(i < j);
        assert!(w <= THRESHOLD);
    }
}

#[test]
fn pair_just_beyond_the_threshold_has_no_edge() {
    // Squared distance 250_000_000_001: the rounded distance is still
    // 500_000, the true one is greater than the threshold.
    let g = build_graph(&matrix(&[&[0, 0], &[500_000, 1]]));
    assert_eq!(g.edge_count(), 0);
    let h = build_graph(&matrix(&[&[0, 0], &[500_000, 0]]));
    assert_eq!(edges_of(&h), vec![(0, 1, 500_000)]);
}

#[test]
fn identical_rows_are_joined_with_weight_zero() {
    let g = build_graph(&matrix(&[&[5, 5], &[5, 5], &[5, 5]]));
    assert_eq!(edges_of(&g), vec![(0, 1, 0), (0, 2, 0), (1, 2, 0)]);
}

#[test]
fn rows_without_columns_are_all_at_distance_zero() {
    let g = build_graph(&matrix(&[&[], &[]]));
    assert_eq!(edges_of(&g), vec![(0, 1, 0)]);
}

#[test]
fn rows_far_beyond_any_distance_have_no_edge() {
    let g = build_graph(&matrix(&[&[i64::MAX, i64::MAX], &[i64::MIN, i64::MIN], &[i64::MAX, i64::MAX]]));
    assert_eq!(edges_of(&g), vec![(0, 2, 0)]);
}

#[test]
fn small_matrices_can_be_built() {
    assert!(can_build(&matrix(&[])));
    assert!(can_build(&matrix(&[&[1], &[2]])));
}

#[test]
fn pairs_fit_up_to_the_index_limit() {
    assert!(pairs_fit(0));
    assert!(pairs_fit(1));
    assert!(pairs_fit(92_682));
    assert!(!pairs_fit(92_683));
    assert!(!pairs_fit(usize::MAX));
}
