use simgraph::data::{
    check_columns, column_categories, column_is_categorical, count_features, encode,
    encode_category, encode_row, encode_selected, load_data, position_of, select_columns,
    split_columns, Cell, Mode,
};
use simgraph::error::AnalysisError;
use simgraph::matrix::{shape_allowed, FeatureMatrix};
use simgraph::scaling::{column_range, normalize, normalize_value};
use simgraph::util::SCALE;

fn cell(text: &str) -> Cell {
    let number = text.parse::<f64>().ok().map(|v| (v * SCALE as f64).round() as i64);
    Cell { text: text.to_string(), number }
}

fn table(rows: &[&[&str]]) -> Vec<Vec<Cell>> {
    rows.iter().map(|r| r.iter().map(|t| cell(t)).collect()).collect()
}

fn names(items: &[&str]) -> Vec<String> {
    items.iter().map(|s| s.to_string()).collect()
}

fn rows_of(m: &FeatureMatrix) -> Vec<Vec<i64>> {
    (0..m.height()).map(|r| m.row(r).unwrap()).collect()
}

#[test]
fn mode_from_choice_defaults_to_all() {
    assert_eq!(Mode::from_choice(1), Mode::All);
    assert_eq!(Mode::from_choice(2), Mode::Eating);
    assert_eq!(Mode::from_choice(3), Mode::Physical);
    assert_eq!(Mode::from_choice(0), Mode::All);
    assert_eq!(Mode::from_choice(4), Mode::All);
    assert_eq!(Mode::from_choice(usize::MAX), Mode::All);
}

#[test]
fn all_selects_every_column_but_the_last() {
    assert_eq!(select_columns(Mode::All, 5), Ok(vec![0, 1, 2, 3]));
    assert_eq!(select_columns(Mode::All, 1), Ok(vec![]));
    assert_eq!(select_columns(Mode::All, 0), Ok(vec![]));
}

#[test]
fn eating_and_physical_select_fixed_columns() {
    assert_eq!(select_columns(Mode::Eating, 17), Ok(vec![4, 5, 8, 10, 11, 13]));
    assert_eq!(select_columns(Mode::Physical, 17), Ok(vec![2, 3, 6, 7, 9, 12]));
    assert_eq!(select_columns(Mode::Eating, 14), Ok(vec![4, 5, 8, 10, 11, 13]));
    assert_eq!(select_columns(Mode::Physical, 13), Ok(vec![2, 3, 6, 7, 9, 12]));
}

#[test]
fn narrow_table_is_an_invalid_schema() {
    assert_eq!(select_columns(Mode::Eating, 13), Err(AnalysisError::InvalidSchema));
    assert_eq!(select_columns(Mode::Physical, 12), Err(AnalysisError::InvalidSchema));
    assert_eq!(select_columns(Mode::Eating, 0), Err(AnalysisError::InvalidSchema));
}

#[test]
fn check_columns_compares_with_width() {
    assert!(check_columns(&vec![0, 2, 1], 3));
    assert!(!check_columns(&vec![0, 3], 3));
    assert!(check_columns(&vec![], 0));
}

#[test]
fn one_bad_cell_makes_the_column_categorical() {
    let records = table(&[&["1", "2"], &["x", "3"], &["4", "5"]]);
    assert!(column_is_categorical(&records, 0));
    assert!(!column_is_categorical(&records, 1));
}

#[test]
fn missing_cell_makes_the_column_categorical() {
    let records = table(&[&["1", "2"], &["3"]]);
    assert!(!column_is_categorical(&records, 0));
    assert!(column_is_categorical(&records, 1));
    assert!(column_is_categorical(&records, 7));
}

#[test]
fn no_rows_means_no_categorical_column() {
    let records: Vec<Vec<Cell>> = Vec::new();
    assert!(!column_is_categorical(&records, 0));
}

#[test]
fn split_keeps_selection_order() {
    let records = table(&[&["1", "a", "2", "b"], &["3", "c", "4", "d"]]);
    let (numeric, categorical) = split_columns(&records, &vec![3, 2, 1, 0]);
    assert_eq!(numeric, vec![2, 0]);
    assert_eq!(categorical, vec![3, 1]);
}

#[test]
fn categories_come_in_order_of_first_appearance() {
    let records = table(&[&["pear"], &["apple"], &["pear"], &["fig"], &["apple"]]);
    assert_eq!(column_categories(&records, 0), names(&["pear", "apple", "fig"]));
}

#[test]
fn missing_cell_is_the_empty_category() {
    let records = table(&[&["1", "x"], &["2"], &["3", "x"]]);
    assert_eq!(column_categories(&records, 1), names(&["x", ""]));
}

#[test]
fn position_of_finds_the_first_match() {
    let list = names(&["a", "b", "a"]);
    assert_eq!(position_of(&list, &"a".to_string()), Some(0));
    assert_eq!(position_of(&list, &"b".to_string()), Some(1));
    assert_eq!(position_of(&list, &"c".to_string()), None);
}

#[test]
fn one_hot_block_marks_exactly_one_category() {
    let list = names(&["a", "b", "c"]);
    let block = encode_category(&list, &"b".to_string());
    assert_eq!(block, vec![0, SCALE, 0]);
    assert_eq!(block.iter().sum::<i64>(), SCALE);
}

#[test]
fn unknown_category_gives_a_block_of_zeros() {
    let list = names(&["a", "b"]);
    assert_eq!(encode_category(&list, &"z".to_string()), vec![0, 0]);
}

#[test]
fn row_holds_numbers_then_blocks() {
    let records = table(&[&["1.5", "red", "x"], &["2.5", "blue", "x"]]);
    let cats = vec![names(&["red", "blue"]), names(&["x"])];
    let row = encode_row(&records, 1, &vec![0], &vec![1, 2], &cats);
    assert_eq!(row, vec![2_500_000, 0, SCALE, SCALE]);
}

#[test]
fn bad_number_in_a_numeric_position_counts_as_zero() {
    let records = table(&[&["oops", "3"]]);
    let row = encode_row(&records, 0, &vec![0, 1, 5], &vec![], &vec![]);
    assert_eq!(row, vec![0, 3_000_000, 0]);
}

#[test]
fn feature_count_adds_category_sizes() {
    let cats = vec![names(&["a", "b"]), names(&["x", "y", "z"])];
    assert_eq!(count_features(4, &cats), Some(9));
    assert_eq!(count_features(0, &vec![]), Some(0));
    assert_eq!(count_features(usize::MAX, &cats), None);
}

#[test]
fn shape_allowed_follows_the_byte_limit() {
    assert!(shape_allowed(0, 0));
    assert!(shape_allowed(1000, 1000));
    let limit = isize::MAX as usize;
    assert!(shape_allowed(limit / 8, 1));
    assert!(!shape_allowed(limit / 8 + 1, 1));
    assert!(!shape_allowed(limit, 2));
    assert!(shape_allowed(limit, 0));
    assert!(!shape_allowed(limit + 1, 0));
}

#[test]
fn normalize_value_is_linear_and_rounds_down() {
    assert_eq!(normalize_value(10, 10, 20), 0);
    assert_eq!(normalize_value(20, 10, 20), SCALE);
    assert_eq!(normalize_value(15, 10, 20), 500_000);
    assert_eq!(normalize_value(1, 0, 3), 333_333);
    assert_eq!(normalize_value(2, 0, 3), 666_666);
    assert_eq!(normalize_value(0, i64::MIN, i64::MAX), 500_000);
    assert_eq!(normalize_value(i64::MAX, i64::MIN, i64::MAX), SCALE);
}

#[test]
fn normalized_columns_span_zero_to_one() {
    let mut m = FeatureMatrix::from_rows(&vec![vec![5, 7, -3], vec![9, 7, 0], vec![6, 7, 3]]).unwrap();
    assert_eq!(column_range(&m, 0), (5, 9));
    assert_eq!(column_range(&m, 1), (7, 7));
    normalize(&mut m);
    assert_eq!(rows_of(&m), vec![vec![0, 7, 0], vec![SCALE, 7, 500_000], vec![250_000, 7, SCALE]]);
    for col in [0usize, 2] {
        assert_eq!(column_range(&m, col), (0, SCALE));
    }
    assert_eq!(column_range(&m, 1), (7, 7));
}

#[test]
fn normalizing_an_empty_matrix_changes_nothing() {
    let mut m = FeatureMatrix::from_rows(&vec![]).unwrap();
    normalize(&mut m);
    assert_eq!(m.height(), 0);
    assert_eq!(m.columns(), 0);
}

#[test]
fn matrix_from_rows_and_accessors() {
    let m = FeatureMatrix::from_rows(&vec![vec![1, 2, 3], vec![4, 5, 6]]).unwrap();
    assert_eq!(m.height(), 2);
    assert_eq!(m.columns(), 3);
    assert_eq!(m.get(1, 2), Some(6));
    assert_eq!(m.get(2, 0), None);
    assert_eq!(m.get(0, 3), None);
    assert_eq!(m.row(0), Some(vec![1, 2, 3]));
    assert_eq!(m.row(2), None);
    assert!(FeatureMatrix::from_rows(&vec![vec![1, 2], vec![3]]).is_none());
}

#[test]
fn set_row_overwrites_one_row() {
    let mut m = FeatureMatrix::from_rows(&vec![vec![1, 2], vec![3, 4]]).unwrap();
    m.set_row(1, &vec![9, 8]);
    assert_eq!(rows_of(&m), vec![vec![1, 2], vec![9, 8]]);
}

#[test]
fn encode_lays_out_numeric_columns_first() {
    // Columns: text, number, text, number, (last, dropped by All).
    let records = table(&[
        &["a", "1", "x", "10", "l"],
        &["b", "2", "x", "30", "l"],
        &["a", "3", "y", "20", "l"],
    ]);
    let headers = names(&["c0", "c1", "c2", "c3", "c4"]);
    let m = encode(&records, &headers, Mode::All).unwrap();
    assert_eq!(m.columns(), 2 + 2 + 2);
    assert_eq!(
        rows_of(&m),
        vec![
            vec![0, 0, SCALE, 0, SCALE, 0],
            vec![500_000, SCALE, 0, SCALE, SCALE, 0],
            vec![SCALE, 500_000, SCALE, 0, 0, SCALE],
        ]
    );
}

#[test]
fn single_category_block_stays_all_ones() {
    let records = table(&[&["k", "1"], &["k", "2"]]);
    let m = encode_selected(&records, 2, &vec![0, 1]).unwrap();
    assert_eq!(rows_of(&m), vec![vec![0, SCALE], vec![SCALE, SCALE]]);
}

#[test]
fn every_block_of_every_row_sums_to_one() {
    let records = table(&[
        &["a", "x", "1"],
        &["b", "x", "2"],
        &["c", "y", "3"],
        &["a", "z", "4"],
        &["b"],
    ]);
    let m = encode_selected(&records, 3, &vec![0, 1, 2]).unwrap();
    // Column 2 is categorical too: the last row lacks it.
    assert_eq!(m.columns(), 3 + 4 + 5);
    for r in 0..m.height() {
        let row = m.row(r).unwrap();
        assert_eq!(row[0..3].iter().sum::<i64>(), SCALE);
        assert_eq!(row[3..7].iter().sum::<i64>(), SCALE);
        assert_eq!(row[7..12].iter().sum::<i64>(), SCALE);
        assert!(row.iter().all(|v| *v == 0 || *v == SCALE));
    }
}

#[test]
fn encode_selected_rejects_columns_outside_the_table() {
    let records = table(&[&["1", "2"]]);
    assert!(matches!(encode_selected(&records, 2, &vec![0, 2]), Err(AnalysisError::InvalidSchema)));
}

#[test]
fn load_data_without_header_is_a_load_failure() {
    let result = load_data(Vec::new(), table(&[&["1"]]), 1);
    assert!(matches!(result, Err(AnalysisError::LoadFailure)));
}

#[test]
fn load_data_with_too_few_columns_is_an_invalid_schema() {
    let headers = names(&["a", "b", "c"]);
    assert!(matches!(load_data(headers.clone(), table(&[&["1", "2", "3"]]), 2), Err(AnalysisError::InvalidSchema)));
    assert!(matches!(load_data(headers, table(&[&["1", "2", "3"]]), 3), Err(AnalysisError::InvalidSchema)));
}

#[test]
fn load_data_keeps_rows_and_header() {
    let headers = names(&["h", "w", "label"]);
    let records = table(&[&["1", "10", "p"], &["3", "10", "q"]]);
    let dataset = load_data(headers.clone(), records, 7).unwrap();
    assert_eq!(dataset.headers, headers);
    assert_eq!(dataset.records.len(), 2);
    assert_eq!(dataset.records[1][2].text, "q");
    assert_eq!(dataset.records[1][0].number, Some(3_000_000));
    assert_eq!(rows_of(&dataset.data), vec![vec![0, 10_000_000], vec![SCALE, 10_000_000]]);
}

#[test]
fn load_data_with_no_rows_gives_an_empty_matrix() {
    let dataset = load_data(names(&["a", "b", "c"]), Vec::new(), 1).unwrap();
    assert_eq!(dataset.data.height(), 0);
    assert_eq!(dataset.data.columns(), 2);
}
