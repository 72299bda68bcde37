//! The label column and the distribution of its labels.

use vstd::prelude::*;
use crate::data::{
    categories, column_texts, distinct, lemma_distinct, position_of, text_at, texts_of, Cell,
};

verus! {

/// The labels of a column in order of first appearance, each with the number
/// of rows that carry it.
#[derive(Clone, Debug, PartialEq, Eq)]
pub struct ClassDistribution {
    pub labels: Vec<String>,
    pub counts: Vec<usize>,
}

/// The number of times `text` occurs in `texts`.
pub open spec fn occurrences(texts: Seq<Seq<char>>, text: Seq<char>) -> nat
    decreases texts.len(),
{
    if texts.len() == 0 {
        0
    } else {
        occurrences(texts.drop_last(), text) + if texts.last() == text {
            1nat
        } else {
            0nat
        }
    }
}

/// The sum of the counts.
pub open spec fn total(counts: Seq<usize>) -> nat
    decreases counts.len(),
{
    if counts.len() == 0 {
        0
    } else {
        total(counts.drop_last()) + counts.last() as nat
    }
}

/// `classes` is the distribution of the texts of column `col`: its labels
/// are the distinct texts in order of first appearance, and each count is
/// the number of rows that hold the label.
pub open spec fn is_class_distribution(
    records: Seq<Vec<Cell>>,
    col: int,
    classes: ClassDistribution,
) -> bool {
    &&& texts_of(classes.labels@) == categories(records, col)
    &&& classes.counts.len() == classes.labels.len()
    &&& forall|k: int|
        0 <= k < classes.counts.len() ==> #[trigger] classes.counts@[k] == occurrences(
            column_texts(records, col),
            classes.labels@[k]@,
        )
}

/// A text that does not occur has no occurrences, and no text occurs more
/// often than there are texts.
pub proof fn lemma_occurrences(texts: Seq<Seq<char>>, text: Seq<char>)
    ensures
        occurrences(texts, text) <= texts.len(),
        !texts.contains(text) ==> occurrences(texts, text) == 0,
    decreases texts.len(),
{
    if texts.len() > 0 {
        lemma_occurrences(texts.drop_last(), text);
        if !texts.contains(text) {
            assert(texts[texts.len() - 1] != text);
            if texts.drop_last().contains(text) {
                let i = choose|i: int|
                    0 <= i < texts.drop_last().len() && texts.drop_last()[i] == text;
                assert(texts[i] == text);
            }
        }
    }
}

/// Replacing one count changes the sum by the difference.
pub proof fn lemma_total_update(counts: Seq<usize>, k: int, count: usize)
    requires
        0 <= k < counts.len(),
    ensures
        total(counts.update(k, count)) == total(counts) - counts[k] + count,
    decreases counts.len(),
{
    let after = counts.update(k, count);
    if k == counts.len() - 1 {
        assert(after.drop_last() =~= counts.drop_last());
    } else {
        lemma_total_update(counts.drop_last(), k, count);
        assert(after.drop_last() =~= counts.drop_last().update(k, count));
    }
}

/// The labels of column `col` in order of first appearance, each with the
/// number of rows that carry it. A row without the column counts under the
/// empty label. The counts add up to the number of rows.
pub fn class_distribution(records: &Vec<Vec<Cell>>, col: usize) -> (classes: ClassDistribution)
    ensures
        is_class_distribution(records@, col as int, classes),
        total(classes.counts@) == records.len(),
{
    let mut labels: Vec<String> = Vec::new();
    let mut counts: Vec<usize> = Vec::new();
    let ghost texts = column_texts(records@, col as int);
    let mut row: usize = 0;
    assert(texts.take(0) =~= Seq::<Seq<char>>::empty());
    assert(texts_of(labels@) =~= Seq::<Seq<char>>::empty());
    while row < records.len()
        invariant
            row <= records.len(),
            texts == column_texts(records@, col as int),
            texts_of(labels@) == distinct(texts.take(row as int)),
            counts.len() == labels.len(),
            forall|k: int|
                0 <= k < counts.len() ==> #[trigger] counts@[k] == occurrences(
                    texts.take(row as int),
                    labels@[k]@,
                ),
            total(counts@) == row,
        decreases records.len() - row,
    {
        let text = text_at(records, row, col);
        let found = position_of(&labels, &text);
        let ghost seen = texts.take(row as int);
        let ghost next = texts.take(row as int + 1);
        let ghost earlier = texts_of(labels@);
        proof {
            assert(next.drop_last() =~= seen);
            assert(next.last() == text@);
            lemma_distinct(seen);
            lemma_occurrences(seen, text@);
        }
        match found {
            Some(k) => {
                proof {
                    assert(earlier[k as int] == text@);
                    assert(earlier.contains(text@));
                    lemma_total_update(counts@, k as int, (counts@[k as int] + 1) as usize);
                    assert forall|j: int| 0 <= j < labels.len() && j != k implies labels@[j]@
                        != text@ by {
                        assert(earlier[j] == labels@[j]@);
                    }
                }
                let count = counts[k];
                counts.set(k, count + 1);
            },
            None => {
                proof {
                    assert forall|j: int| 0 <= j < earlier.len() implies earlier[j] != text@ by {
                        assert(labels@[j]@ != text@);
                    }
                    assert(!earlier.contains(text@));
                    assert(!seen.contains(text@));
                    assert(texts_of(labels@.push(text)) =~= earlier.push(text@));
                    assert(counts@.push(1).drop_last() =~= counts@);
                }
                labels.push(text);
                counts.push(1);
            },
        }
        row += 1;
    }
    proof {
        assert(texts.take(row as int) =~= texts);
    }
    ClassDistribution { labels, counts }
}

/// The name of the column that holds the label.
pub open spec fn label_name() -> Seq<char> {
    "NObeyesdad"@
}

/// `found` is the first column whose header is the label's name, or
/// nothing when no header is.
pub open spec fn is_label_column(headers: Seq<String>, found: Option<usize>) -> bool {
    match found {
        Some(k) => k < headers.len() && headers[k as int]@ == label_name() && forall|j: int|
            0 <= j < k ==> (#[trigger] headers[j])@ != label_name(),
        None => forall|j: int| 0 <= j < headers.len() ==> (#[trigger] headers[j])@ != label_name(),
    }
}

/// The first column whose header is the label's name, if there is one.
pub fn label_column(headers: &Vec<String>) -> (found: Option<usize>)
    ensures
        is_label_column(headers@, found),
{
    let name = String::from_str("NObeyesdad");
    position_of(headers, &name)
}

/// The label of a row as it is shown: the text of its cell in the label
/// column, or a question mark when the row has no such cell.
pub open spec fn shown_label(records: Seq<Vec<Cell>>, col: int, row: int) -> Seq<char> {
    if 0 <= col < records[row]@.len() {
        records[row]@[col].text@
    } else {
        "?"@
    }
}

/// The label of row `row` as it is shown.
pub fn label_at(records: &Vec<Vec<Cell>>, col: usize, row: usize) -> (label: String)
    requires
        row < records.len(),
    ensures
        label@ == shown_label(records@, col as int, row as int),
{
    if col < records[row].len() {
        records[row][col].text.clone()
    } else {
        String::from_str("?")
    }
}

} // verus!
