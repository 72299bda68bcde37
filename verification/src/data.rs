//! Encoding of raw rows into a normalized feature matrix.
//!
//! A table is a header and rows of cells. Some columns are selected as
//! features. A selected column in which every cell holds a number is numeric;
//! any other is categorical and is one-hot encoded over the distinct texts
//! found in it, in order of first appearance. The matrix holds the numeric
//! columns first, then one block per categorical column, and is min-max
//! normalized column by column.

use vstd::prelude::*;
use crate::error::AnalysisError;
use crate::matrix::{shape_allowed, shape_fits, FeatureMatrix};
use crate::scaling::{
    column_max, column_min, lemma_column_range, normalize, normalize_cell, normalized,
};
use crate::util::SCALE;

verus! {

/// One cell of a row: its text, and the fixed-point number that the text
/// stands for, or `None` when the text does not read as a number. Whoever
/// fills the cell decides what reads as a number; the encoder takes both
/// fields as given.
#[derive(Clone, Debug, PartialEq, Eq)]
pub struct Cell {
    pub text: String,
    pub number: Option<i64>,
}

/// The encoded table: the normalized feature matrix together with the rows
/// and the header it was built from.
pub struct Dataset {
    pub data: FeatureMatrix,
    pub records: Vec<Vec<Cell>>,
    pub headers: Vec<String>,
}

/// Which columns of the table serve as features.
#[derive(Clone, Copy, Debug, PartialEq, Eq, Structural)]
pub enum Mode {
    /// Every column but the last, which holds the label.
    All,
    /// The columns on eating habits.
    Eating,
    /// The columns on physical condition.
    Physical,
}

/// The columns on eating habits.
pub open spec fn eating_columns() -> Seq<usize> {
    seq![4usize, 5usize, 8usize, 10usize, 11usize, 13usize]
}

/// The columns on physical condition.
pub open spec fn physical_columns() -> Seq<usize> {
    seq![2usize, 3usize, 6usize, 7usize, 9usize, 12usize]
}

/// The mode that a numeric choice stands for: 2 is eating, 3 is physical,
/// anything else is all.
pub open spec fn mode_of(choice: usize) -> Mode {
    if choice == 2 {
        Mode::Eating
    } else if choice == 3 {
        Mode::Physical
    } else {
        Mode::All
    }
}

impl Mode {
    /// The mode that a numeric choice stands for.
    pub fn from_choice(choice: usize) -> (mode: Mode)
        ensures
            mode == mode_of(choice),
    {
        if choice == 2 {
            Mode::Eating
        } else if choice == 3 {
            Mode::Physical
        } else {
            Mode::All
        }
    }

    /// The columns this mode selects from a table of `width` columns,
    /// whether or not the table has them.
    pub open spec fn columns(self, width: nat) -> Seq<usize> {
        match self {
            Mode::Eating => eating_columns(),
            Mode::Physical => physical_columns(),
            Mode::All => if width == 0 {
                Seq::empty()
            } else {
                Seq::new((width - 1) as nat, |i: int| i as usize)
            },
        }
    }
}

/// The columns that a numeric choice selects from a table of `width`
/// columns.
pub open spec fn selection(choice: usize, width: nat) -> Seq<usize> {
    mode_of(choice).columns(width)
}

/// Every selected column lies inside a table of `width` columns.
pub open spec fn columns_in_bounds(selected: Seq<usize>, width: nat) -> bool {
    forall|k: int| 0 <= k < selected.len() ==> #[trigger] selected[k] < width
}

/// The text of a cell; a cell that the row lacks reads as the empty text.
pub open spec fn cell_text(records: Seq<Vec<Cell>>, row: int, col: int) -> Seq<char> {
    if 0 <= col < records[row]@.len() {
        records[row]@[col].text@
    } else {
        Seq::empty()
    }
}

/// The number in a cell, if its text reads as one; a cell that the row lacks
/// holds none.
pub open spec fn cell_number(records: Seq<Vec<Cell>>, row: int, col: int) -> Option<i64> {
    if 0 <= col < records[row]@.len() {
        records[row]@[col].number
    } else {
        None
    }
}

/// A column is categorical when some row's cell in it is not a number.
pub open spec fn is_categorical(records: Seq<Vec<Cell>>, col: int) -> bool {
    exists|row: int| 0 <= row < records.len() && (#[trigger] cell_number(records, row, col)) is None
}

/// The test that picks the categorical columns.
pub open spec fn categorical_test(records: Seq<Vec<Cell>>) -> spec_fn(usize) -> bool {
    |c: usize| is_categorical(records, c as int)
}

/// The test that picks the numeric columns.
pub open spec fn numeric_test(records: Seq<Vec<Cell>>) -> spec_fn(usize) -> bool {
    |c: usize| !is_categorical(records, c as int)
}

/// The selected columns that are numeric, in selection order.
pub open spec fn numeric_columns(records: Seq<Vec<Cell>>, selected: Seq<usize>) -> Seq<usize> {
    selected.filter(numeric_test(records))
}

/// The selected columns that are categorical, in selection order.
pub open spec fn categorical_columns(records: Seq<Vec<Cell>>, selected: Seq<usize>) -> Seq<usize> {
    selected.filter(categorical_test(records))
}

/// The columns that `mode` selects, or `InvalidSchema` when the table is too
/// narrow to have them all.
pub fn select_columns(mode: Mode, width: usize) -> (result: Result<Vec<usize>, AnalysisError>)
    ensures
        match result {
            Ok(selected) => selected@ == mode.columns(width as nat) && columns_in_bounds(
                selected@,
                width as nat,
            ),
            Err(e) => e == AnalysisError::InvalidSchema && !columns_in_bounds(
                mode.columns(width as nat),
                width as nat,
            ),
        },
{
    match mode {
        Mode::Eating => {
            let selected: Vec<usize> = vec![4, 5, 8, 10, 11, 13];
            assert(selected@ =~= eating_columns());
            if width > 13 {
                Ok(selected)
            } else {
                assert(selected@[5] >= width);
                Err(AnalysisError::InvalidSchema)
            }
        },
        Mode::Physical => {
            let selected: Vec<usize> = vec![2, 3, 6, 7, 9, 12];
            assert(selected@ =~= physical_columns());
            if width > 12 {
                Ok(selected)
            } else {
                assert(selected@[5] >= width);
                Err(AnalysisError::InvalidSchema)
            }
        },
        Mode::All => {
            let mut selected: Vec<usize> = Vec::new();
            if width > 0 {
                let mut c: usize = 0;
                while c < width - 1
                    invariant
                        0 < width,
                        c <= width - 1,
                        selected@ == Seq::new(c as nat, |i: int| i as usize),
                    decreases width - 1 - c,
                {
                    selected.push(c);
                    c += 1;
                    assert(selected@ =~= Seq::new(c as nat, |i: int| i as usize));
                }
            }
            assert(selected@ =~= mode.columns(width as nat));
            Ok(selected)
        },
    }
}

/// Whether some row's cell in column `col` is not a number.
pub fn column_is_categorical(records: &Vec<Vec<Cell>>, col: usize) -> (found: bool)
    ensures
        found == is_categorical(records@, col as int),
{
    let mut row: usize = 0;
    while row < records.len()
        invariant
            row <= records.len(),
            forall|r: int| 0 <= r < row ==> (#[trigger] cell_number(records@, r, col as int)) is Some,
        decreases records.len() - row,
    {
        if col >= records[row].len() {
            assert(cell_number(records@, row as int, col as int) is None);
            return true;
        }
        if records[row][col].number.is_none() {
            assert(cell_number(records@, row as int, col as int) is None);
            return true;
        }
        row += 1;
    }
    false
}

/// Splits the selected columns into the numeric and the categorical ones,
/// each in selection order.
pub fn split_columns(records: &Vec<Vec<Cell>>, selected: &Vec<usize>) -> (parts: (
    Vec<usize>,
    Vec<usize>,
))
    ensures
        parts.0@ == numeric_columns(records@, selected@),
        parts.1@ == categorical_columns(records@, selected@),
{
    let mut numeric: Vec<usize> = Vec::new();
    let mut categorical: Vec<usize> = Vec::new();
    let mut k: usize = 0;
    while k < selected.len()
        invariant
            k <= selected.len(),
            numeric@ == numeric_columns(records@, selected@.take(k as int)),
            categorical@ == categorical_columns(records@, selected@.take(k as int)),
        decreases selected.len() - k,
    {
        let col = selected[k];
        let found = column_is_categorical(records, col);
        proof {
            let before = selected@.take(k as int);
            assert(selected@.take(k as int + 1) =~= before.push(col));
            before.lemma_filter_push(col, categorical_test(records@));
            before.lemma_filter_push(col, numeric_test(records@));
        }
        if found {
            categorical.push(col);
        } else {
            numeric.push(col);
        }
        k += 1;
    }
    proof {
        assert(selected@.take(k as int) =~= selected@);
    }
    (numeric, categorical)
}

/// The texts found in one column, row by row.
pub open spec fn column_texts(records: Seq<Vec<Cell>>, col: int) -> Seq<Seq<char>> {
    Seq::new(records.len(), |row: int| cell_text(records, row, col))
}

/// The distinct texts of a sequence, each at the place of its first
/// appearance.
pub open spec fn distinct(texts: Seq<Seq<char>>) -> Seq<Seq<char>>
    decreases texts.len(),
{
    if texts.len() == 0 {
        Seq::empty()
    } else {
        let earlier = distinct(texts.drop_last());
        if earlier.contains(texts.last()) {
            earlier
        } else {
            earlier.push(texts.last())
        }
    }
}

/// The categories of a column: its distinct texts in order of first
/// appearance. The order of the one-hot columns follows it.
pub open spec fn categories(records: Seq<Vec<Cell>>, col: int) -> Seq<Seq<char>> {
    distinct(column_texts(records, col))
}

/// The texts that a sequence of strings holds.
pub open spec fn texts_of(names: Seq<String>) -> Seq<Seq<char>> {
    Seq::new(names.len(), |k: int| names[k]@)
}

/// `distinct` keeps exactly the texts of its argument, and keeps each once.
pub proof fn lemma_distinct(texts: Seq<Seq<char>>)
    ensures
        distinct(texts).no_duplicates(),
        forall|t: Seq<char>| #[trigger] distinct(texts).contains(t) <==> texts.contains(t),
        distinct(texts).len() <= texts.len(),
    decreases texts.len(),
{
    if texts.len() > 0 {
        let head = texts.drop_last();
        let earlier = distinct(head);
        lemma_distinct(head);
        assert forall|t: Seq<char>| #[trigger] distinct(texts).contains(t) <==> texts.contains(
            t,
        ) by {
            if texts.contains(t) {
                let i = choose|i: int| 0 <= i < texts.len() && texts[i] == t;
                if i < head.len() {
                    assert(head[i] == t);
                    assert(head.contains(t));
                    assert(earlier.contains(t));
                    let j = choose|j: int| 0 <= j < earlier.len() && earlier[j] == t;
                    assert(distinct(texts)[j] == t);
                } else {
                    assert(t == texts.last());
                    if earlier.contains(t) {
                    } else {
                        assert(distinct(texts)[earlier.len() as int] == t);
                    }
                }
            }
            if distinct(texts).contains(t) {
                let j = choose|j: int| 0 <= j < distinct(texts).len() && distinct(texts)[j] == t;
                if j < earlier.len() {
                    assert(earlier[j] == t);
                    assert(earlier.contains(t));
                    assert(head.contains(t));
                    let i = choose|i: int| 0 <= i < head.len() && head[i] == t;
                    assert(texts[i] == t);
                } else {
                    assert(texts[texts.len() - 1] == t);
                }
            }
        }
    }
}

/// A cell without a number counts as zero.
pub open spec fn number_or_zero(number: Option<i64>) -> i64 {
    match number {
        Some(v) => v,
        None => 0,
    }
}

/// The text of the cell at `row` and `col`, empty where the row has no such
/// cell.
pub fn text_at(records: &Vec<Vec<Cell>>, row: usize, col: usize) -> (text: String)
    requires
        row < records.len(),
    ensures
        text@ == cell_text(records@, row as int, col as int),
{
    if col < records[row].len() {
        records[row][col].text.clone()
    } else {
        String::new()
    }
}

/// The number in the cell at `row` and `col`, or zero where the cell holds
/// none.
pub fn number_at(records: &Vec<Vec<Cell>>, row: usize, col: usize) -> (value: i64)
    requires
        row < records.len(),
    ensures
        value == number_or_zero(cell_number(records@, row as int, col as int)),
{
    if col < records[row].len() {
        match records[row][col].number {
            Some(v) => v,
            None => 0,
        }
    } else {
        0
    }
}

/// The first place at which `names` holds `text`, if it holds it at all.
pub fn position_of(names: &Vec<String>, text: &String) -> (found: Option<usize>)
    ensures
        match found {
            Some(k) => k < names.len() && names[k as int]@ == text@ && forall|j: int|
                0 <= j < k ==> (#[trigger] names[j])@ != text@,
            None => forall|j: int| 0 <= j < names.len() ==> (#[trigger] names[j])@ != text@,
        },
{
    let mut k: usize = 0;
    while k < names.len()
        invariant
            k <= names.len(),
            forall|j: int| 0 <= j < k ==> (#[trigger] names[j])@ != text@,
        decreases names.len() - k,
    {
        if names[k] == *text {
            return Some(k);
        }
        k += 1;
    }
    None
}

/// The categories of column `col`: its distinct texts in order of first
/// appearance.
pub fn column_categories(records: &Vec<Vec<Cell>>, col: usize) -> (names: Vec<String>)
    ensures
        texts_of(names@) == categories(records@, col as int),
{
    let mut names: Vec<String> = Vec::new();
    let mut row: usize = 0;
    assert(texts_of(names@) =~= distinct(column_texts(records@, col as int).take(0)));
    while row < records.len()
        invariant
            row <= records.len(),
            texts_of(names@) == distinct(column_texts(records@, col as int).take(row as int)),
        decreases records.len() - row,
    {
        let text = text_at(records, row, col);
        let found = position_of(&names, &text);
        proof {
            let all = column_texts(records@, col as int);
            let next = all.take(row as int + 1);
            assert(next.drop_last() =~= all.take(row as int));
            assert(next.last() == text@);
            let earlier = texts_of(names@);
            match found {
                Some(k) => {
                    assert(earlier[k as int] == text@);
                    assert(earlier.contains(text@));
                },
                None => {
                    assert forall|j: int| 0 <= j < earlier.len() implies earlier[j] != text@ by {
                        assert(names@[j]@ != text@);
                    }
                    assert(!earlier.contains(text@));
                    assert(texts_of(names@.push(text)) =~= earlier.push(text@));
                },
            }
        }
        if found.is_none() {
            names.push(text);
        }
        row += 1;
    }
    proof {
        let all = column_texts(records@, col as int);
        assert(all.take(row as int) =~= all);
    }
    names
}

/// The one-hot block of `text` over the categories `names`: one full unit
/// where the category is `text`, zero elsewhere. A text that is no category
/// gives a block of zeros.
pub open spec fn one_hot(names: Seq<Seq<char>>, text: Seq<char>) -> Seq<i64> {
    Seq::new(names.len(), |k: int| if names[k] == text { SCALE } else { 0i64 })
}

/// The one-hot blocks of a row laid end to end: block `k` encodes `texts[k]`
/// over the categories `lists[k]`.
pub open spec fn one_hot_blocks(lists: Seq<Seq<Seq<char>>>, texts: Seq<Seq<char>>) -> Seq<i64>
    recommends
        lists.len() == texts.len(),
    decreases lists.len(),
{
    if lists.len() == 0 {
        Seq::empty()
    } else {
        one_hot_blocks(lists.drop_last(), texts.drop_last()) + one_hot(lists.last(), texts.last())
    }
}

/// The number of cells that the blocks over `lists` take.
pub open spec fn total_width(lists: Seq<Seq<Seq<char>>>) -> nat
    decreases lists.len(),
{
    if lists.len() == 0 {
        0
    } else {
        total_width(lists.drop_last()) + lists.last().len()
    }
}

/// The categories of each of the given columns.
pub open spec fn category_lists(records: Seq<Vec<Cell>>, cols: Seq<usize>) -> Seq<Seq<Seq<char>>> {
    Seq::new(cols.len(), |k: int| categories(records, cols[k] as int))
}

/// The texts of one row in the given columns.
pub open spec fn row_texts(records: Seq<Vec<Cell>>, cols: Seq<usize>, row: int) -> Seq<Seq<char>> {
    Seq::new(cols.len(), |k: int| cell_text(records, row, cols[k] as int))
}

/// The numbers of one row in the given columns, zero where a cell holds
/// none.
pub open spec fn row_numbers(records: Seq<Vec<Cell>>, cols: Seq<usize>, row: int) -> Seq<i64> {
    Seq::new(cols.len(), |k: int| number_or_zero(cell_number(records, row, cols[k] as int)))
}

/// The categories that a vector of name lists holds.
pub open spec fn lists_of(names: Seq<Vec<String>>) -> Seq<Seq<Seq<char>>> {
    Seq::new(names.len(), |k: int| texts_of(names[k]@))
}

/// The features of one row before normalization: the numbers of its numeric
/// columns, then the one-hot blocks of its categorical columns.
pub open spec fn raw_row(records: Seq<Vec<Cell>>, selected: Seq<usize>, row: int) -> Seq<i64> {
    row_numbers(records, numeric_columns(records, selected), row) + one_hot_blocks(
        category_lists(records, categorical_columns(records, selected)),
        row_texts(records, categorical_columns(records, selected), row),
    )
}

/// The number of features: one per numeric column and one per category of
/// each categorical column.
pub open spec fn feature_count(records: Seq<Vec<Cell>>, selected: Seq<usize>) -> nat {
    numeric_columns(records, selected).len() + total_width(
        category_lists(records, categorical_columns(records, selected)),
    )
}

/// The feature matrix before normalization, row by row.
pub open spec fn raw_features(records: Seq<Vec<Cell>>, selected: Seq<usize>) -> Seq<Seq<i64>> {
    Seq::new(records.len(), |row: int| raw_row(records, selected, row))
}

/// The blocks of a row take `total_width` cells.
pub proof fn lemma_blocks_len(lists: Seq<Seq<Seq<char>>>, texts: Seq<Seq<char>>)
    ensures
        one_hot_blocks(lists, texts).len() == total_width(lists),
    decreases lists.len(),
{
    if lists.len() > 0 {
        lemma_blocks_len(lists.drop_last(), texts.drop_last());
    }
}

/// Every raw row has `feature_count` cells.
pub proof fn lemma_raw_row_len(records: Seq<Vec<Cell>>, selected: Seq<usize>, row: int)
    ensures
        raw_row(records, selected, row).len() == feature_count(records, selected),
{
    lemma_blocks_len(
        category_lists(records, categorical_columns(records, selected)),
        row_texts(records, categorical_columns(records, selected), row),
    );
}

/// The categories of each of the given columns.
pub fn collect_categories(records: &Vec<Vec<Cell>>, cols: &Vec<usize>) -> (names: Vec<Vec<String>>)
    ensures
        lists_of(names@) == category_lists(records@, cols@),
{
    let mut names: Vec<Vec<String>> = Vec::new();
    let mut k: usize = 0;
    while k < cols.len()
        invariant
            k <= cols.len(),
            names.len() == k,
            forall|j: int| 0 <= j < k ==> texts_of(#[trigger] names@[j]@) == categories(
                records@,
                cols@[j] as int,
            ),
        decreases cols.len() - k,
    {
        let list = column_categories(records, cols[k]);
        names.push(list);
        k += 1;
    }
    assert(lists_of(names@) =~= category_lists(records@, cols@));
    names
}

/// The one-hot block of `text` over the categories `names`.
pub fn encode_category(names: &Vec<String>, text: &String) -> (block: Vec<i64>)
    ensures
        block@ == one_hot(texts_of(names@), text@),
        !texts_of(names@).contains(text@) ==> forall|k: int|
            0 <= k < block.len() ==> #[trigger] block@[k] == 0,
{
    let mut block: Vec<i64> = Vec::new();
    let mut k: usize = 0;
    while k < names.len()
        invariant
            k <= names.len(),
            block.len() == k,
            forall|j: int| 0 <= j < k ==> #[trigger] block@[j] == one_hot(texts_of(names@), text@)[j],
        decreases names.len() - k,
    {
        if names[k] == *text {
            block.push(SCALE);
        } else {
            block.push(0);
        }
        k += 1;
    }
    assert(block@ =~= one_hot(texts_of(names@), text@));
    proof {
        if !texts_of(names@).contains(text@) {
            lemma_one_hot_absent(texts_of(names@), text@);
        }
    }
    block
}

/// The features of row `row` before normalization: its numbers in the
/// columns `numeric`, then its one-hot blocks in the columns `categorical`
/// over the categories `names`.
pub fn encode_row(
    records: &Vec<Vec<Cell>>,
    row: usize,
    numeric: &Vec<usize>,
    categorical: &Vec<usize>,
    names: &Vec<Vec<String>>,
) -> (features: Vec<i64>)
    requires
        row < records.len(),
        names.len() == categorical.len(),
    ensures
        features@ == row_numbers(records@, numeric@, row as int) + one_hot_blocks(
            lists_of(names@),
            row_texts(records@, categorical@, row as int),
        ),
{
    let mut features: Vec<i64> = Vec::new();
    let mut k: usize = 0;
    while k < numeric.len()
        invariant
            k <= numeric.len(),
            row < records.len(),
            features@ == row_numbers(records@, numeric@, row as int).take(k as int),
        decreases numeric.len() - k,
    {
        let value = number_at(records, row, numeric[k]);
        features.push(value);
        k += 1;
        assert(features@ =~= row_numbers(records@, numeric@, row as int).take(k as int));
    }
    let ghost numbers = row_numbers(records@, numeric@, row as int);
    let ghost lists = lists_of(names@);
    let ghost texts = row_texts(records@, categorical@, row as int);
    assert(numbers.take(k as int) =~= numbers);
    let mut c: usize = 0;
    assert(lists.take(0) =~= Seq::<Seq<Seq<char>>>::empty());
    assert(features@ =~= numbers + one_hot_blocks(lists.take(0), texts.take(0)));
    while c < categorical.len()
        invariant
            c <= categorical.len(),
            row < records.len(),
            names.len() == categorical.len(),
            numbers == row_numbers(records@, numeric@, row as int),
            lists == lists_of(names@),
            texts == row_texts(records@, categorical@, row as int),
            features@ == numbers + one_hot_blocks(lists.take(c as int), texts.take(c as int)),
        decreases categorical.len() - c,
    {
        let text = text_at(records, row, categorical[c]);
        let block = encode_category(&names[c], &text);
        let ghost before = features@;
        let mut j: usize = 0;
        while j < block.len()
            invariant
                j <= block.len(),
                features@ == before + block@.take(j as int),
            decreases block.len() - j,
        {
            features.push(block[j]);
            j += 1;
            assert(features@ =~= before + block@.take(j as int));
        }
        proof {
            assert(block@.take(j as int) =~= block@);
            assert(lists.take(c as int + 1).drop_last() =~= lists.take(c as int));
            assert(texts.take(c as int + 1).drop_last() =~= texts.take(c as int));
            assert(lists.take(c as int + 1).last() == texts_of(names@[c as int]@));
            assert(texts.take(c as int + 1).last() == text@);
            assert(features@ =~= numbers + one_hot_blocks(
                lists.take(c as int + 1),
                texts.take(c as int + 1),
            ));
        }
        c += 1;
    }
    proof {
        assert(lists.take(c as int) =~= lists);
        assert(texts.take(c as int) =~= texts);
    }
    features
}

/// The number of features that `numeric` columns and the categories `names`
/// give, or `None` when that number does not fit a `usize`.
pub fn count_features(numeric: usize, names: &Vec<Vec<String>>) -> (count: Option<usize>)
    ensures
        match count {
            Some(n) => n == numeric + total_width(lists_of(names@)),
            None => numeric + total_width(lists_of(names@)) > usize::MAX,
        },
{
    let ghost lists = lists_of(names@);
    let mut total: usize = numeric;
    let mut k: usize = 0;
    assert(lists.take(0) =~= Seq::<Seq<Seq<char>>>::empty());
    while k < names.len()
        invariant
            k <= names.len(),
            lists == lists_of(names@),
            total == numeric + total_width(lists.take(k as int)),
        decreases names.len() - k,
    {
        proof {
            assert(lists.take(k as int + 1).drop_last() =~= lists.take(k as int));
            assert(lists.take(k as int + 1).last().len() == names@[k as int]@.len());
            lemma_total_width_prefix(lists, k as int + 1);
        }
        match total.checked_add(names[k].len()) {
            Some(next) => {
                total = next;
            },
            None => {
                return None;
            },
        }
        k += 1;
    }
    proof {
        assert(lists.take(k as int) =~= lists);
    }
    Some(total)
}

/// The width of a prefix of the blocks never exceeds the width of all.
pub proof fn lemma_total_width_prefix(lists: Seq<Seq<Seq<char>>>, k: int)
    requires
        0 <= k <= lists.len(),
    ensures
        total_width(lists.take(k)) <= total_width(lists),
    decreases lists.len() - k,
{
    if k == lists.len() {
        assert(lists.take(k) =~= lists);
    } else {
        assert(lists.take(k + 1).drop_last() =~= lists.take(k));
        lemma_total_width_prefix(lists, k + 1);
    }
}

/// `data` is the encoding of the rows over the selected columns: the raw
/// features, normalized, with one column per feature.
pub open spec fn is_encoding(data: &FeatureMatrix, records: Seq<Vec<Cell>>, selected: Seq<usize>) -> bool {
    &&& data@ == normalized(raw_features(records, selected))
    &&& data.width() == feature_count(records, selected)
}

/// Why the rows cannot be encoded over the selected columns of a table of
/// `width` columns, if they cannot: the table lacks a selected column, or a
/// matrix of the needed shape cannot be allocated.
pub open spec fn selection_error(records: Seq<Vec<Cell>>, width: nat, selected: Seq<usize>) -> Option<
    AnalysisError,
> {
    if !columns_in_bounds(selected, width) {
        Some(AnalysisError::InvalidSchema)
    } else if !shape_fits(records.len(), feature_count(records, selected)) {
        Some(AnalysisError::CapacityExceeded)
    } else {
        None
    }
}

/// Why the rows cannot be encoded over the columns that `mode` selects from
/// a table of `width` columns, if they cannot.
pub open spec fn encode_error(records: Seq<Vec<Cell>>, width: nat, mode: Mode) -> Option<
    AnalysisError,
> {
    selection_error(records, width, mode.columns(width))
}

/// Why the table cannot be loaded, if it cannot: it has no header, or its
/// rows cannot be encoded.
pub open spec fn load_error(records: Seq<Vec<Cell>>, width: nat, choice: usize) -> Option<
    AnalysisError,
> {
    if width == 0 {
        Some(AnalysisError::LoadFailure)
    } else {
        encode_error(records, width, mode_of(choice))
    }
}

/// Whether every selected column lies inside a table of `width` columns.
pub fn check_columns(selected: &Vec<usize>, width: usize) -> (ok: bool)
    ensures
        ok == columns_in_bounds(selected@, width as nat),
{
    let mut k: usize = 0;
    while k < selected.len()
        invariant
            k <= selected.len(),
            forall|j: int| 0 <= j < k ==> #[trigger] selected@[j] < width,
        decreases selected.len() - k,
    {
        if selected[k] >= width {
            return false;
        }
        k += 1;
    }
    true
}

/// Encodes the rows into a normalized feature matrix over the given columns
/// of a table of `width` columns.
///
/// Fails with `InvalidSchema` when the table lacks a selected column, and
/// with `CapacityExceeded` when a matrix of the needed shape cannot be
/// allocated.
pub fn encode_selected(records: &Vec<Vec<Cell>>, width: usize, selected: &Vec<usize>) -> (result:
    Result<FeatureMatrix, AnalysisError>)
    ensures
        match result {
            Ok(data) => selection_error(records@, width as nat, selected@) is None && is_encoding(
                &data,
                records@,
                selected@,
            ),
            Err(e) => selection_error(records@, width as nat, selected@) == Some(e),
        },
{
    if !check_columns(selected, width) {
        return Err(AnalysisError::InvalidSchema);
    }
    let (numeric, categorical) = split_columns(records, selected);
    let names = collect_categories(records, &categorical);
    let count = match count_features(numeric.len(), &names) {
        Some(count) => count,
        None => {
            return Err(AnalysisError::CapacityExceeded);
        },
    };
    if !shape_allowed(records.len(), count) {
        return Err(AnalysisError::CapacityExceeded);
    }
    let mut m = FeatureMatrix::zeros(records.len(), count);
    let mut row: usize = 0;
    while row < records.len()
        invariant
            row <= records.len(),
            m@.len() == records.len(),
            m.width() == count,
            count == feature_count(records@, selected@),
            numeric@ == numeric_columns(records@, selected@),
            categorical@ == categorical_columns(records@, selected@),
            lists_of(names@) == category_lists(records@, categorical@),
            names.len() == categorical.len(),
            forall|r: int| 0 <= r < row ==> #[trigger] m@[r] == raw_row(records@, selected@, r),
        decreases records.len() - row,
    {
        let features = encode_row(records, row, &numeric, &categorical, &names);
        proof {
            lemma_raw_row_len(records@, selected@, row as int);
        }
        m.set_row(row, &features);
        row += 1;
    }
    assert(m@ =~= raw_features(records@, selected@));
    normalize(&mut m);
    Ok(m)
}

/// Encodes the rows into a normalized feature matrix over the columns that
/// `mode` selects from a table with the given header.
///
/// Fails as `encode_selected` does.
pub fn encode(records: &Vec<Vec<Cell>>, headers: &Vec<String>, mode: Mode) -> (result: Result<
    FeatureMatrix,
    AnalysisError,
>)
    ensures
        match result {
            Ok(data) => encode_error(records@, headers.len() as nat, mode) is None && is_encoding(
                &data,
                records@,
                mode.columns(headers.len() as nat),
            ),
            Err(e) => encode_error(records@, headers.len() as nat, mode) == Some(e),
        },
{
    match select_columns(mode, headers.len()) {
        Ok(selected) => encode_selected(records, headers.len(), &selected),
        Err(e) => Err(e),
    }
}

/// Builds the dataset of a table: checks that there is a header, picks the
/// feature columns that `choice` stands for, and encodes the rows. The
/// header and the rows are kept in the dataset as they came.
///
/// Fails with `LoadFailure` when the header is empty, and otherwise as
/// `encode` does.
pub fn load_data(headers: Vec<String>, records: Vec<Vec<Cell>>, choice: usize) -> (result: Result<
    Dataset,
    AnalysisError,
>)
    ensures
        match result {
            Ok(dataset) => {
                &&& load_error(records@, headers.len() as nat, choice) is None
                &&& dataset.headers == headers
                &&& dataset.records == records
                &&& is_encoding(
                    &dataset.data,
                    records@,
                    selection(choice, headers.len() as nat),
                )
            },
            Err(e) => load_error(records@, headers.len() as nat, choice) == Some(e),
        },
{
    if headers.len() == 0 {
        return Err(AnalysisError::LoadFailure);
    }
    let mode = Mode::from_choice(choice);
    match encode(&records, &headers, mode) {
        Ok(data) => Ok(Dataset { data, records, headers }),
        Err(e) => Err(e),
    }
}

/// The sum of the cells of a vector.
pub open spec fn sum_of(cells: Seq<i64>) -> int
    decreases cells.len(),
{
    if cells.len() == 0 {
        0
    } else {
        sum_of(cells.drop_last()) + cells.last()
    }
}

/// Over categories without repetition, the one-hot block of a text that is
/// among them marks exactly one cell: the block holds one unit at the place
/// of the text, zero elsewhere, and sums to one unit.
pub proof fn lemma_one_hot_marks_one(names: Seq<Seq<char>>, text: Seq<char>)
    requires
        names.no_duplicates(),
        names.contains(text),
    ensures
        one_hot(names, text)[names.index_of(text)] == SCALE,
        forall|k: int|
            0 <= k < names.len() && k != names.index_of(text) ==> #[trigger] one_hot(names, text)[k]
                == 0,
        sum_of(one_hot(names, text)) == SCALE,
{
    let at = names.index_of(text);
    assert(0 <= at < names.len() && names[at] == text);
    lemma_sum_of_marked(one_hot(names, text), at, names.len() as int);
    assert(one_hot(names, text).take(names.len() as int) =~= one_hot(names, text));
}

/// The sum of the first `n` cells of a vector that holds one unit at `at`
/// and zero elsewhere.
proof fn lemma_sum_of_marked(cells: Seq<i64>, at: int, n: int)
    requires
        0 <= at < cells.len(),
        0 <= n <= cells.len(),
        cells[at] == SCALE,
        forall|k: int| 0 <= k < cells.len() && k != at ==> #[trigger] cells[k] == 0,
    ensures
        sum_of(cells.take(n)) == if at < n { SCALE as int } else { 0 },
    decreases n,
{
    if n > 0 {
        lemma_sum_of_marked(cells, at, n - 1);
        assert(cells.take(n).drop_last() =~= cells.take(n - 1));
        assert(cells.take(n).last() == cells[n - 1]);
    }
}

/// A block over categories without the text holds only zeros.
pub proof fn lemma_one_hot_absent(names: Seq<Seq<char>>, text: Seq<char>)
    requires
        !names.contains(text),
    ensures
        forall|k: int| 0 <= k < names.len() ==> #[trigger] one_hot(names, text)[k] == 0,
{
    assert forall|k: int| 0 <= k < names.len() implies #[trigger] one_hot(names, text)[k] == 0 by {
        if names[k] == text {
            assert(names.contains(text));
        }
    }
}

/// For every row of the table and every column, the one-hot block of the
/// row's cell over the column's categories sums to exactly one unit: exactly
/// one category is marked.
pub proof fn lemma_block_sums_to_one(records: Seq<Vec<Cell>>, col: int, row: int)
    requires
        0 <= row < records.len(),
    ensures
        categories(records, col).contains(cell_text(records, row, col)),
        categories(records, col).no_duplicates(),
        sum_of(one_hot(categories(records, col), cell_text(records, row, col))) == SCALE,
{
    let texts = column_texts(records, col);
    lemma_distinct(texts);
    assert(texts[row] == cell_text(records, row, col));
    assert(texts.contains(cell_text(records, row, col)));
    lemma_one_hot_marks_one(categories(records, col), cell_text(records, row, col));
}

/// The place in a row at which the block of the `k`-th categorical column
/// begins: after the numeric columns and the blocks before it.
pub open spec fn block_start(records: Seq<Vec<Cell>>, selected: Seq<usize>, k: int) -> int {
    (numeric_columns(records, selected).len() + total_width(
        category_lists(records, categorical_columns(records, selected)).take(k),
    )) as int
}

/// Block `k` of the blocks laid end to end is the one-hot block of
/// `texts[k]` over `lists[k]`, and it begins after the blocks before it.
pub proof fn lemma_block_in_blocks(lists: Seq<Seq<Seq<char>>>, texts: Seq<Seq<char>>, k: int)
    requires
        lists.len() == texts.len(),
        0 <= k < lists.len(),
    ensures
        total_width(lists.take(k)) + lists[k].len() <= one_hot_blocks(lists, texts).len(),
        one_hot_blocks(lists, texts).subrange(
            total_width(lists.take(k)) as int,
            (total_width(lists.take(k)) + lists[k].len()) as int,
        ) == one_hot(lists[k], texts[k]),
    decreases lists.len(),
{
    let head_lists = lists.drop_last();
    let head_texts = texts.drop_last();
    let head = one_hot_blocks(head_lists, head_texts);
    let last = one_hot(lists.last(), texts.last());
    let all = one_hot_blocks(lists, texts);
    let start = total_width(lists.take(k)) as int;
    lemma_blocks_len(head_lists, head_texts);
    assert(all == head + last);
    if k == lists.len() - 1 {
        assert(lists.take(k) =~= head_lists);
        assert(all.subrange(start, start + lists[k].len()) =~= last);
    } else {
        lemma_block_in_blocks(head_lists, head_texts, k);
        assert(head_lists.take(k) =~= lists.take(k));
        assert(head_lists[k] == lists[k]);
        assert(head_texts[k] == texts[k]);
        assert(all.subrange(start, start + lists[k].len()) =~= head.subrange(
            start,
            start + lists[k].len(),
        ));
    }
}

/// In the encoded matrix, the block of every categorical column in every
/// row is the one-hot block of the row's cell over the column's categories:
/// normalization leaves it as it was built. So the block marks exactly one
/// category and sums to exactly one unit.
pub proof fn lemma_encoded_block(records: Seq<Vec<Cell>>, selected: Seq<usize>, row: int, k: int)
    requires
        0 <= row < records.len(),
        0 <= k < categorical_columns(records, selected).len(),
    ensures
        ({
            let col = categorical_columns(records, selected)[k] as int;
            let start = block_start(records, selected, k);
            let cells = normalized(raw_features(records, selected))[row];
            let block = cells.subrange(start, start + categories(records, col).len());
            &&& 0 <= start && start + categories(records, col).len() <= cells.len()
            &&& block == one_hot(categories(records, col), cell_text(records, row, col))
            &&& sum_of(block) == SCALE
        }),
{
    let numeric = numeric_columns(records, selected);
    let categorical = categorical_columns(records, selected);
    let lists = category_lists(records, categorical);
    let col = categorical[k] as int;
    let names = categories(records, col);
    let start = block_start(records, selected, k);
    let raw = raw_features(records, selected);
    let cells = normalized(raw)[row];
    let block = cells.subrange(start, start + names.len());
    let offset = total_width(lists.take(k)) as int;
    assert(lists[k] == names);
    assert(start == numeric.len() + offset);
    // Every raw row holds, at the block's place, the one-hot block of its
    // own cell.
    assert forall|r: int| 0 <= r < records.len() implies start + names.len() <= (
    #[trigger] raw[r]).len() && raw[r].subrange(start, start + names.len()) == one_hot(
        names,
        cell_text(records, r, col),
    ) by {
        let texts = row_texts(records, categorical, r);
        let numbers = row_numbers(records, numeric, r);
        let blocks = one_hot_blocks(lists, texts);
        lemma_block_in_blocks(lists, texts, k);
        assert(texts[k] == cell_text(records, r, col));
        assert(raw[r] == numbers + blocks);
        assert(raw[r].subrange(start, start + names.len()) =~= blocks.subrange(
            offset,
            offset + names.len(),
        ));
    }
    assert(cells.len() == raw[row].len());
    lemma_distinct(column_texts(records, col));
    assert forall|j: int| 0 <= j < names.len() implies #[trigger] block[j] == one_hot(
        names,
        cell_text(records, row, col),
    )[j] by {
        let c = start + j;
        let low = column_min(raw, c);
        let high = column_max(raw, c);
        lemma_column_range(raw, c);
        assert forall|r: int| 0 <= r < raw.len() implies (#[trigger] raw[r])[c] == one_hot(
            names,
            cell_text(records, r, col),
        )[j] by {
            assert(raw[r].subrange(start, start + names.len())[j] == raw[r][c]);
        }
        // The category occurs in some row, whose block marks it.
        assert(names.contains(names[j]));
        assert(column_texts(records, col).contains(names[j]));
        let r0 = choose|r0: int|
            0 <= r0 < column_texts(records, col).len() && column_texts(records, col)[r0]
                == names[j];
        assert(cell_text(records, r0, col) == names[j]);
        assert(raw[r0][c] == SCALE);
        let at_low = choose|r: int| 0 <= r < raw.len() && (#[trigger] raw[r])[c] == low;
        let at_high = choose|r: int| 0 <= r < raw.len() && (#[trigger] raw[r])[c] == high;
        assert(raw[at_low][c] == 0 || raw[at_low][c] == SCALE);
        assert(raw[at_high][c] == 0 || raw[at_high][c] == SCALE);
        assert(high == SCALE);
        assert(low == 0 || low == SCALE);
        let x = raw[row][c];
        assert(x == 0 || x == SCALE);
        assert(cells[c] == normalize_cell(x, low, high));
        if low == 0 {
            vstd::arithmetic::div_mod::lemma_div_multiples_vanish(x as int, SCALE as int);
            assert((x - low) * SCALE == SCALE * x) by (nonlinear_arith)
                requires
                    low == 0,
            ;
        }
        assert(cells[c] == x);
        assert(block[j] == cells[c]);
    }
    assert(block =~= one_hot(names, cell_text(records, row, col)));
    lemma_block_sums_to_one(records, col, row);
}

} // verus!
