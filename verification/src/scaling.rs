//! Min-max normalization of a feature matrix, column by column.
//!
//! A column with more than one distinct value is rescaled linearly so that
//! its least value becomes zero and its greatest one full unit. A column
//! whose values are all equal is left as it is.

use vstd::prelude::*;
use crate::matrix::{matrix_rows, matrix_width, FeatureMatrix};
use crate::util::SCALE;

verus! {

/// The least value in column `col`; zero for a matrix without rows.
pub open spec fn column_min(rows: Seq<Seq<i64>>, col: int) -> i64
    decreases rows.len(),
{
    if rows.len() == 0 {
        0
    } else if rows.len() == 1 {
        rows[0][col]
    } else {
        let rest = column_min(rows.drop_last(), col);
        if rows.last()[col] < rest {
            rows.last()[col]
        } else {
            rest
        }
    }
}

/// The greatest value in column `col`; zero for a matrix without rows.
pub open spec fn column_max(rows: Seq<Seq<i64>>, col: int) -> i64
    decreases rows.len(),
{
    if rows.len() == 0 {
        0
    } else if rows.len() == 1 {
        rows[0][col]
    } else {
        let rest = column_max(rows.drop_last(), col);
        if rows.last()[col] > rest {
            rows.last()[col]
        } else {
            rest
        }
    }
}

/// The value `x` of a column that ranges from `low` to `high`, rescaled so
/// that `low` becomes zero and `high` one unit; unchanged when the column is
/// constant.
pub open spec fn normalize_cell(x: i64, low: i64, high: i64) -> i64 {
    if high > low {
        ((x - low) * SCALE / (high - low)) as i64
    } else {
        x
    }
}

/// The matrix with every column min-max normalized.
pub open spec fn normalized(rows: Seq<Seq<i64>>) -> Seq<Seq<i64>> {
    Seq::new(
        rows.len(),
        |r: int|
            Seq::new(
                rows[r].len(),
                |c: int| normalize_cell(rows[r][c], column_min(rows, c), column_max(rows, c)),
            ),
    )
}

/// The least and the greatest value of a column bound every value in it, and
/// each is the value of some row.
pub proof fn lemma_column_range(rows: Seq<Seq<i64>>, col: int)
    requires
        rows.len() > 0,
    ensures
        forall|r: int|
            0 <= r < rows.len() ==> column_min(rows, col) <= (#[trigger] rows[r])[col]
                <= column_max(rows, col),
        exists|r: int| 0 <= r < rows.len() && (#[trigger] rows[r])[col] == column_min(rows, col),
        exists|r: int| 0 <= r < rows.len() && (#[trigger] rows[r])[col] == column_max(rows, col),
    decreases rows.len(),
{
    if rows.len() == 1 {
        assert(rows[0][col] == column_min(rows, col));
        assert(rows[0][col] == column_max(rows, col));
    } else {
        let head = rows.drop_last();
        lemma_column_range(head, col);
        let last = rows.len() - 1;
        assert forall|r: int| 0 <= r < rows.len() implies column_min(rows, col) <= (
        #[trigger] rows[r])[col] <= column_max(rows, col) by {
            if r < last {
                assert(head[r] == rows[r]);
            }
        }
        let lo = choose|r: int| 0 <= r < head.len() && (#[trigger] head[r])[col] == column_min(head, col);
        let hi = choose|r: int| 0 <= r < head.len() && (#[trigger] head[r])[col] == column_max(head, col);
        assert(rows[lo] == head[lo]);
        assert(rows[hi] == head[hi]);
        if rows.last()[col] < column_min(head, col) {
            assert(rows[last][col] == column_min(rows, col));
        } else {
            assert(rows[lo][col] == column_min(rows, col));
        }
        if rows.last()[col] > column_max(head, col) {
            assert(rows[last][col] == column_max(rows, col));
        } else {
            assert(rows[hi][col] == column_max(rows, col));
        }
    }
}

/// A value that bounds the column from below and occurs in it is the
/// column's least; likewise from above.
pub proof fn lemma_column_range_is(rows: Seq<Seq<i64>>, col: int, low: i64, high: i64)
    requires
        rows.len() > 0,
        forall|r: int| 0 <= r < rows.len() ==> low <= (#[trigger] rows[r])[col] <= high,
        exists|r: int| 0 <= r < rows.len() && (#[trigger] rows[r])[col] == low,
        exists|r: int| 0 <= r < rows.len() && (#[trigger] rows[r])[col] == high,
    ensures
        column_min(rows, col) == low,
        column_max(rows, col) == high,
{
    lemma_column_range(rows, col);
}

/// Two matrices that agree on a column have the same least and greatest
/// value there.
pub proof fn lemma_column_range_same(a: Seq<Seq<i64>>, b: Seq<Seq<i64>>, col: int)
    requires
        a.len() == b.len(),
        forall|r: int| 0 <= r < a.len() ==> (#[trigger] a[r])[col] == b[r][col],
    ensures
        column_min(a, col) == column_min(b, col),
        column_max(a, col) == column_max(b, col),
    decreases a.len(),
{
    if a.len() > 1 {
        assert forall|r: int| 0 <= r < a.drop_last().len() implies (#[trigger] a.drop_last()[r])[col]
            == b.drop_last()[r][col] by {
            assert(a.drop_last()[r] == a[r]);
            assert(b.drop_last()[r] == b[r]);
        }
        lemma_column_range_same(a.drop_last(), b.drop_last(), col);
        assert(a.last() == a[a.len() - 1]);
        assert(b.last() == b[a.len() - 1]);
    } else if a.len() == 1 {
        assert(a[0][col] == b[0][col]);
    }
}

/// A rescaled value lies between zero and one unit; the least value of the
/// column becomes zero and the greatest one unit.
pub proof fn lemma_normalize_cell(x: i64, low: i64, high: i64)
    requires
        low <= x <= high,
        low < high,
    ensures
        0 <= (x - low) * SCALE / (high - low) <= SCALE,
        0 <= normalize_cell(x, low, high) <= SCALE,
        x == low ==> normalize_cell(x, low, high) == 0,
        x == high ==> normalize_cell(x, low, high) == SCALE,
{
    let num = (x - low) * SCALE;
    let den = high - low;
    assert(0 <= num <= den * SCALE) by (nonlinear_arith)
        requires
            num == (x - low) * SCALE,
            den == high - low,
            0 <= x - low <= high - low,
            SCALE == 1_000_000,
    ;
    vstd::arithmetic::div_mod::lemma_div_is_ordered(0, num, den);
    vstd::arithmetic::div_mod::lemma_div_is_ordered(num, den * SCALE, den);
    vstd::arithmetic::div_mod::lemma_div_multiples_vanish(SCALE as int, den);
    assert(den * SCALE == SCALE * den) by (nonlinear_arith);
    assert(0int / den == 0) by (nonlinear_arith)
        requires
            den > 0,
    ;
    if x == high {
        assert(num == den * SCALE);
    }
    if x == low {
        assert(num == 0) by (nonlinear_arith)
            requires
                num == (x - low) * SCALE,
                x == low,
        ;
    }
}

/// After normalization a column that held more than one distinct value has
/// least value zero and greatest value one unit, and a constant column is
/// unchanged.
pub proof fn lemma_normalized_column(rows: Seq<Seq<i64>>, col: int)
    requires
        rows.len() > 0,
        forall|r: int| 0 <= r < rows.len() ==> 0 <= col < (#[trigger] rows[r]).len(),
    ensures
        column_max(rows, col) > column_min(rows, col) ==> column_min(normalized(rows), col) == 0
            && column_max(normalized(rows), col) == SCALE,
        column_max(rows, col) <= column_min(rows, col) ==> forall|r: int|
            0 <= r < rows.len() ==> (#[trigger] normalized(rows)[r])[col] == rows[r][col],
{
    let low = column_min(rows, col);
    let high = column_max(rows, col);
    let after = normalized(rows);
    lemma_column_range(rows, col);
    assert forall|r: int| 0 <= r < rows.len() implies (#[trigger] after[r])[col] == normalize_cell(
        rows[r][col],
        low,
        high,
    ) by {}
    if high > low {
        let at_low = choose|r: int| 0 <= r < rows.len() && (#[trigger] rows[r])[col] == low;
        let at_high = choose|r: int| 0 <= r < rows.len() && (#[trigger] rows[r])[col] == high;
        assert forall|r: int| 0 <= r < after.len() implies 0 <= (#[trigger] after[r])[col]
            <= SCALE by {
            lemma_normalize_cell(rows[r][col], low, high);
        }
        lemma_normalize_cell(rows[at_low][col], low, high);
        lemma_normalize_cell(rows[at_high][col], low, high);
        assert(after[at_low][col] == 0);
        assert(after[at_high][col] == SCALE);
        lemma_column_range_is(after, col, 0, SCALE);
    }
}

/// The value `x` of a column that ranges from `low` to `high`, rescaled to
/// the range from zero to one unit.
pub fn normalize_value(x: i64, low: i64, high: i64) -> (v: i64)
    requires
        low <= x <= high,
        low < high,
    ensures
        v == normalize_cell(x, low, high),
        0 <= v <= SCALE,
{
    let offset: u128 = (x as i128 - low as i128) as u128;
    let span: u128 = (high as i128 - low as i128) as u128;
    proof {
        lemma_normalize_cell(x, low, high);
        assert(offset * SCALE <= 0xffff_ffff_ffff_ffff * 1_000_000) by (nonlinear_arith)
            requires
                0 <= offset <= 0xffff_ffff_ffff_ffff,
                SCALE == 1_000_000,
        ;
    }
    let scaled: u128 = offset * (SCALE as u128);
    let quotient: u128 = scaled / span;
    quotient as i64
}

/// The least and the greatest value of column `col`.
pub fn column_range(m: &FeatureMatrix, col: usize) -> (range: (i64, i64))
    requires
        matrix_rows(m).len() > 0,
        col < matrix_width(m),
    ensures
        range.0 == column_min(matrix_rows(m), col as int),
        range.1 == column_max(matrix_rows(m), col as int),
{
    let rows = m.nrows();
    let mut low = m.cell(0, col);
    let mut high = low;
    let mut row: usize = 1;
    assert(matrix_rows(m).take(1)[0] == matrix_rows(m)[0]);
    while row < rows
        invariant
            1 <= row <= rows,
            rows == matrix_rows(m).len(),
            col < matrix_width(m),
            low == column_min(matrix_rows(m).take(row as int), col as int),
            high == column_max(matrix_rows(m).take(row as int), col as int),
        decreases rows - row,
    {
        let x = m.cell(row, col);
        proof {
            let next = matrix_rows(m).take(row as int + 1);
            assert(next.drop_last() =~= matrix_rows(m).take(row as int));
            assert(next.last() == matrix_rows(m)[row as int]);
        }
        if x < low {
            low = x;
        }
        if x > high {
            high = x;
        }
        row += 1;
    }
    assert(matrix_rows(m).take(row as int) =~= matrix_rows(m));
    (low, high)
}

/// Normalizes every column of the matrix in place.
pub fn normalize(m: &mut FeatureMatrix)
    ensures
        matrix_rows(final(m)) == normalized(matrix_rows(old(m))),
        matrix_width(final(m)) == matrix_width(old(m)),
{
    let rows = m.nrows();
    let cols = m.ncols();
    let ghost start = matrix_rows(m);
    if rows == 0 {
        assert(start =~= normalized(start));
        return ;
    }
    let mut col: usize = 0;
    while col < cols
        invariant
            col <= cols,
            rows > 0,
            start.len() == rows,
            matrix_rows(m).len() == rows,
            matrix_width(m) == cols,
            forall|r: int| 0 <= r < rows ==> (#[trigger] start[r]).len() == cols,
            forall|r: int| 0 <= r < rows ==> (#[trigger] matrix_rows(m)[r]).len() == cols,
            forall|r: int, c: int|
                0 <= r < rows && 0 <= c < col ==> (#[trigger] matrix_rows(m)[r])[c]
                    == normalize_cell(
                    start[r][c],
                    column_min(start, c),
                    #[trigger] column_max(start, c),
                ),
            forall|r: int, c: int|
                0 <= r < rows && col <= c < cols ==> #[trigger] matrix_rows(m)[r][c] == start[r][c],
        decreases cols - col,
    {
        let (low, high) = column_range(m, col);
        proof {
            lemma_column_range_same(matrix_rows(m), start, col as int);
            lemma_column_range(start, col as int);
        }
        if high > low {
            let ghost before = matrix_rows(m);
            let mut row: usize = 0;
            while row < rows
                invariant
                    row <= rows,
                    col < cols,
                    low < high,
                    low == column_min(start, col as int),
                    high == column_max(start, col as int),
                    start.len() == rows,
                    before.len() == rows,
                    matrix_rows(m).len() == rows,
                    matrix_width(m) == cols,
                    forall|r: int|
                        0 <= r < rows ==> low <= (#[trigger] start[r])[col as int] <= high,
                    forall|r: int| 0 <= r < rows ==> (#[trigger] before[r]).len() == cols,
                    forall|r: int| 0 <= r < rows ==> (#[trigger] matrix_rows(m)[r]).len() == cols,
                    forall|r: int| 0 <= r < rows ==> (#[trigger] before[r])[col as int] == start[r][col as int],
                    forall|r: int|
                        0 <= r < row ==> (#[trigger] matrix_rows(m)[r])[col as int]
                            == normalize_cell(start[r][col as int], low, high),
                    forall|r: int|
                        row <= r < rows ==> (#[trigger] matrix_rows(m)[r])[col as int]
                            == start[r][col as int],
                    forall|r: int, c: int|
                        0 <= r < rows && 0 <= c < cols && c != col ==> #[trigger] matrix_rows(
                            m,
                        )[r][c] == before[r][c],
                decreases rows - row,
            {
                let x = m.cell(row, col);
                let v = normalize_value(x, low, high);
                m.put(row, col, v);
                row += 1;
            }
        }
        col += 1;
    }
    proof {
        let after = matrix_rows(m);
        let wanted = normalized(start);
        assert forall|r: int| 0 <= r < rows implies #[trigger] after[r] == wanted[r] by {
            assert(after[r].len() == cols);
            assert(start[r].len() == cols);
            assert forall|c: int| 0 <= c < cols implies after[r][c] == wanted[r][c] by {
                assert(after[r][c] == normalize_cell(
                    start[r][c],
                    column_min(start, c),
                    column_max(start, c),
                ));
            }
            assert(after[r] =~= wanted[r]);
        }
        assert(after =~= wanted);
    }
}

} // verus!
