use petgraph::graph::UnGraph;
use petgraph::visit::EdgeRef;
use simgraph::analysis::analyze_records;
use simgraph::classes::{class_distribution, label_at, label_column};
use simgraph::data::{encode_selected, load_data, Cell, Dataset};
use simgraph::error::AnalysisError;
use simgraph::graph::{
    analyze_graph, build_graph, find_furthest_pair, furthest_in_table, shortest_paths_from,
    DiameterEstimate, DIAMETER_SAMPLE,
};
use simgraph::matrix::FeatureMatrix;
use simgraph::util::SCALE;

fn cell(text: &str) -> Cell {
    let number = text.parse::<f64>().ok().map(|v| (v * SCALE as f64).round() as i64);
    Cell { text: text.to_string(), number }
}

fn table(rows: &[&[&str]]) -> Vec<Vec<Cell>> {
    rows.iter().map(|r| r.iter().map(|t| cell(t)).collect()).collect()
}

fn names(items: &[&str]) -> Vec<String> {
    items.iter().map(|s| s.to_string()).collect()
}

fn graph(nodes: usize, edges: &[(usize, usize, u64)]) -> UnGraph<usize, u64> {
    let mut g = UnGraph::<usize, u64>::new_undirected();
    let ids: Vec<_> = (0..nodes).map(|i| g.add_node(i)).collect();
    for (a, b, w) in edges {
        g.add_edge(ids[*a], ids[*b], *w);
    }
    g
}

fn estimate(max_distance: u64, source: usize, target: usize) -> DiameterEstimate {
    DiameterEstimate { max_distance, source, target }
}

#[test]
fn shortest_paths_take_the_cheaper_detour() {
    let g = graph(4, &[(0, 1, 3), (1, 2, 4), (0, 2, 10), (2, 3, 1)]);
    assert_eq!(shortest_paths_from(&g, 0), Ok(vec![Some(0), Some(3), Some(7), Some(8)]));
    assert_eq!(shortest_paths_from(&g, 3), Ok(vec![Some(8), Some(5), Some(1), Some(0)]));
}

#[test]
fn unreachable_nodes_are_absent() {
    let g = graph(5, &[(0, 1, 2), (3, 4, 9)]);
    assert_eq!(shortest_paths_from(&g, 0), Ok(vec![Some(0), Some(2), None, None, None]));
    assert_eq!(shortest_paths_from(&g, 2), Ok(vec![None, None, Some(0), None, None]));
    assert_eq!(shortest_paths_from(&g, 4), Ok(vec![None, None, None, Some(9), Some(0)]));
}

#[test]
fn edges_are_walked_in_both_directions() {
    let g = graph(3, &[(2, 1, 5), (1, 0, 6)]);
    assert_eq!(shortest_paths_from(&g, 0), Ok(vec![Some(0), Some(6), Some(11)]));
}

#[test]
fn parallel_edges_count_by_the_cheapest() {
    let g = graph(2, &[(0, 1, 9), (0, 1, 4), (1, 0, 7)]);
    assert_eq!(shortest_paths_from(&g, 0), Ok(vec![Some(0), Some(4)]));
}

#[test]
fn source_outside_the_graph_is_an_invalid_node() {
    let g = graph(2, &[(0, 1, 1)]);
    assert_eq!(shortest_paths_from(&g, 2), Err(AnalysisError::InvalidNode));
    assert_eq!(shortest_paths_from(&graph(0, &[]), 0), Err(AnalysisError::InvalidNode));
}

#[test]
fn furthest_in_table_keeps_the_first_of_equal_distances() {
    let start = estimate(0, 0, 0);
    let table = vec![Some(0), Some(5), None, Some(5), Some(2)];
    assert_eq!(furthest_in_table(&table, 3, start), estimate(5, 3, 1));
    let better = estimate(5, 1, 2);
    assert_eq!(furthest_in_table(&table, 3, better), better);
    assert_eq!(furthest_in_table(&vec![], 3, better), better);
    assert_eq!(furthest_in_table(&vec![Some(6)], 7, better), estimate(6, 7, 0));
}

#[test]
fn diameter_is_the_greatest_distance_over_all_sampled_sources() {
    let g = graph(5, &[(0, 1, 3), (1, 2, 4), (2, 3, 1), (3, 4, 2)]);
    let found = find_furthest_pair(&g, DIAMETER_SAMPLE);
    assert_eq!(found, estimate(10, 0, 4));
    for s in 0..5 {
        for d in shortest_paths_from(&g, s).unwrap().into_iter().flatten() {
            assert!(d <= found.max_distance);
        }
    }
}

#[test]
fn diameter_names_the_first_pair_that_reaches_the_maximum() {
    // A greater distance found from a later source replaces the estimate;
    // of two pairs at the same distance the one visited first is kept.
    let g = graph(4, &[(0, 1, 0), (1, 2, 7), (0, 3, 7)]);
    assert_eq!(find_furthest_pair(&g, 100), estimate(14, 2, 3));
    let h = graph(4, &[(0, 2, 7), (1, 3, 7)]);
    assert_eq!(find_furthest_pair(&h, 100), estimate(7, 0, 2));
}

#[test]
fn diameter_only_looks_at_the_sampled_prefix() {
    let g = graph(4, &[(0, 1, 1), (2, 3, 50)]);
    assert_eq!(find_furthest_pair(&g, 2), estimate(1, 0, 1));
    assert_eq!(find_furthest_pair(&g, 3), estimate(50, 2, 3));
    assert_eq!(find_furthest_pair(&g, 0), estimate(0, 0, 0));
}

#[test]
fn diameter_of_a_graph_without_edges_is_zero() {
    assert_eq!(find_furthest_pair(&graph(3, &[]), 100), estimate(0, 0, 0));
    assert_eq!(find_furthest_pair(&graph(0, &[]), 100), estimate(0, 0, 0));
    assert_eq!(find_furthest_pair(&graph(2, &[(0, 1, 0)]), 100), estimate(0, 0, 0));
}

#[test]
fn diameter_sample_is_a_hundred_sources() {
    assert_eq!(DIAMETER_SAMPLE, 100);
    // A path of 120 nodes with unit weights: the farthest pair seen from the
    // first hundred sources is (0, 119).
    let edges: Vec<(usize, usize, u64)> = (0..119).map(|i| (i, i + 1, 1)).collect();
    let g = graph(120, &edges);
    assert_eq!(find_furthest_pair(&g, DIAMETER_SAMPLE), estimate(119, 0, 119));
    // Two far components: the second lies beyond the sample.
    let mut far: Vec<(usize, usize, u64)> = vec![(0, 1, 2)];
    far.push((100, 101, 40));
    let h = graph(102, &far);
    assert_eq!(find_furthest_pair(&h, DIAMETER_SAMPLE), estimate(2, 0, 1));
}

#[test]
fn class_counts_add_up_to_the_number_of_rows() {
    let records = table(&[&["1", "thin"], &["2", "fat"], &["3", "thin"], &["4"], &["5", "thin"]]);
    let classes = class_distribution(&records, 1);
    assert_eq!(classes.labels, names(&["thin", "fat", ""]));
    assert_eq!(classes.counts, vec![3, 1, 1]);
    assert_eq!(classes.counts.iter().sum::<usize>(), records.len());
}

#[test]
fn class_distribution_of_no_rows_is_empty() {
    let classes = class_distribution(&Vec::new(), 0);
    assert!(classes.labels.is_empty());
    assert!(classes.counts.is_empty());
}

#[test]
fn label_column_is_found_by_name() {
    assert_eq!(label_column(&names(&["Age", "NObeyesdad", "NObeyesdad"])), Some(1));
    assert_eq!(label_column(&names(&["Age", "nobeyesdad"])), None);
    assert_eq!(label_column(&Vec::new()), None);
}

#[test]
fn analysis_reports_sizes_distances_classes_and_diameter() {
    let headers = names(&["x", "NObeyesdad"]);
    let records = table(&[&["0", "A"], &["0.4", "B"], &["0.8", "A"], &["3", "B"], &["10", "A"]]);
    let dataset = load_data(headers, records, 1).unwrap();
    // x normalized: 0, 0.04, 0.08, 0.3, 1.
    assert_eq!(dataset.data.row(3), Some(vec![300_000]));
    let g = build_graph(&dataset.data);
    let analysis = analyze_graph(&g, &dataset).unwrap();
    assert_eq!(analysis.node_count, 5);
    assert_eq!(analysis.edge_count, 6);
    assert_eq!(
        analysis.distances,
        vec![Some(0), Some(40_000), Some(80_000), Some(300_000), None]
    );
    assert_eq!(analysis.label_column, Some(1));
    let classes = analysis.classes.unwrap();
    assert_eq!(classes.labels, names(&["A", "B"]));
    assert_eq!(classes.counts, vec![3, 2]);
    assert_eq!(analysis.diameter, estimate(300_000, 0, 3));
}

#[test]
fn analysis_without_label_column_has_no_classes() {
    let dataset = load_data(names(&["x", "y"]), table(&[&["1", "a"], &["2", "b"]]), 1).unwrap();
    let g = build_graph(&dataset.data);
    let analysis = analyze_graph(&g, &dataset).unwrap();
    assert_eq!(analysis.label_column, None);
    assert!(analysis.classes.is_none());
    assert_eq!(analysis.node_count, 2);
}

#[test]
fn analysis_of_an_empty_graph_is_an_invalid_node() {
    let dataset = Dataset {
        data: FeatureMatrix::from_rows(&vec![]).unwrap(),
        records: Vec::new(),
        headers: names(&["x"]),
    };
    let g = build_graph(&dataset.data);
    assert!(matches!(analyze_graph(&g, &dataset), Err(AnalysisError::InvalidNode)));
}

#[test]
fn four_rows_three_columns_end_to_end() {
    // Two numeric columns and one categorical column with two values; no
    // label column.
    let records = table(&[
        &["0", "0", "a"],
        &["1", "2", "a"],
        &["3", "8", "b"],
        &["4", "10", "b"],
    ]);
    let data = encode_selected(&records, 3, &vec![0, 1, 2]).unwrap();
    assert_eq!(data.height(), 4);
    assert_eq!(data.columns(), 4);
    let rows: Vec<Vec<i64>> = (0..4).map(|r| data.row(r).unwrap()).collect();
    assert_eq!(
        rows,
        vec![
            vec![0, 0, SCALE, 0],
            vec![250_000, 200_000, SCALE, 0],
            vec![750_000, 800_000, 0, SCALE],
            vec![SCALE, SCALE, 0, SCALE],
        ]
    );
    for col in 0..4 {
        let column: Vec<i64> = rows.iter().map(|r| r[col]).collect();
        assert_eq!(*column.iter().min().unwrap(), 0);
        assert_eq!(*column.iter().max().unwrap(), SCALE);
    }
    let g = build_graph(&data);
    let edges: Vec<(usize, usize, u64)> =
        g.edge_references().map(|e| (e.source().index(), e.target().index(), *e.weight())).collect();
    // sqrt(0.25^2 + 0.2^2) = 0.320156...; every other pair differs in the
    // category and lies sqrt(2) or more apart.
    assert_eq!(edges, vec![(0, 1, 320_156), (2, 3, 320_156)]);
    assert_eq!(find_furthest_pair(&g, 100), estimate(320_156, 0, 1));
    assert_eq!(shortest_paths_from(&g, 2), Ok(vec![None, None, Some(0), Some(320_156)]));
}

#[test]
fn whole_run_over_a_table() {
    let headers = names(&["x", "kind", "NObeyesdad"]);
    let records = table(&[
        &["0", "a", "L1"],
        &["1", "a", "L2"],
        &["3", "b", "L1"],
        &["4", "b", "L1"],
    ]);
    let report = analyze_records(headers.clone(), records, 1).unwrap();
    assert_eq!(report.dataset.headers, headers);
    assert_eq!(report.dataset.data.columns(), 3);
    assert_eq!(report.graph.node_count(), 4);
    assert_eq!(report.graph.edge_count(), 2);
    assert_eq!(report.analysis.node_count, 4);
    assert_eq!(report.analysis.edge_count, 2);
    assert_eq!(report.analysis.distances, vec![Some(0), Some(250_000), None, None]);
    assert_eq!(report.analysis.diameter, estimate(250_000, 0, 1));
    let classes = report.analysis.classes.unwrap();
    assert_eq!(classes.labels, names(&["L1", "L2"]));
    assert_eq!(classes.counts, vec![3, 1]);
}

#[test]
fn whole_run_fails_as_its_stages_do() {
    assert!(matches!(analyze_records(Vec::new(), Vec::new(), 1), Err(AnalysisError::LoadFailure)));
    assert!(matches!(
        analyze_records(names(&["a", "b"]), table(&[&["1", "2"]]), 2),
        Err(AnalysisError::InvalidSchema)
    ));
    assert!(matches!(
        analyze_records(names(&["a", "b"]), Vec::new(), 1),
        Err(AnalysisError::InvalidNode)
    ));
}

#[test]
fn whole_run_over_too_many_rows_exceeds_capacity() {
    // 92_683 rows have more pairs than a graph can give edges to.
    let records: Vec<Vec<Cell>> = (0..92_683).map(|i| vec![cell(&i.to_string()), cell("x")]).collect();
    let result = analyze_records(names(&["n", "last"]), records, 1);
    assert!(matches!(result, Err(AnalysisError::CapacityExceeded)));
}

#[test]
fn shown_label_is_the_cell_or_a_question_mark() {
    let records = table(&[&["1", "thin"], &["2"]]);
    assert_eq!(label_at(&records, 1, 0), "thin");
    assert_eq!(label_at(&records, 1, 1), "?");
    assert_eq!(label_at(&records, 0, 1), "2");
}
