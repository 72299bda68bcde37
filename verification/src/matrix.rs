//! The feature matrix: a dense two-dimensional array of fixed-point values.
//!
//! The storage is `ndarray::Array2<i64>`. Its type is bounded by one of
//! ndarray's own traits, which cannot be declared to Verus, so the array sits
//! in a private field of a struct whose body Verus does not read. The matrix
//! is described by two uninterpreted functions, its rows and its width, and
//! every operation on the array goes through one of the small trusted
//! functions below. Everything else in the crate is proved against their
//! contracts.

use vstd::prelude::*;

verus! {

/// A samples-by-features matrix of fixed-point values, held in an
/// `ndarray::Array2<i64>`.
#[verifier::external_body]
pub struct FeatureMatrix {
    cells: ndarray::Array2<i64>,
}

/// The rows of the matrix, first row first.
pub uninterp spec fn matrix_rows(m: &FeatureMatrix) -> Seq<Seq<i64>>;

/// The number of columns, which every row shares. It is a name of its own
/// because a matrix without rows still has a width.
pub uninterp spec fn matrix_width(m: &FeatureMatrix) -> nat;

/// Whether an array of this shape can be allocated: each axis and the byte
/// size of the whole buffer stay within `isize::MAX`.
pub open spec fn shape_fits(rows: nat, cols: nat) -> bool {
    &&& rows <= isize::MAX
    &&& cols <= isize::MAX
    &&& rows * cols * 8 <= isize::MAX
}

/// A rectangular block of zeros with `rows` rows of `cols` cells.
pub open spec fn zero_rows(rows: nat, cols: nat) -> Seq<Seq<i64>> {
    Seq::new(rows, |i: int| Seq::new(cols, |j: int| 0i64))
}

impl View for FeatureMatrix {
    type V = Seq<Seq<i64>>;

    open spec fn view(&self) -> Seq<Seq<i64>> {
        matrix_rows(self)
    }
}

impl FeatureMatrix {
    /// The width as a specification value.
    pub open spec fn width(&self) -> nat {
        matrix_width(self)
    }

    /// Calls `ndarray::Array2::<i64>::zeros((rows, cols))`.
    ///
    /// Trusted: the new array has the given shape and every cell is zero.
    /// `zeros` panics when the product of the non-zero axis lengths exceeds
    /// `isize::MAX`, and the `Vec` behind it when the buffer would exceed
    /// `isize::MAX` bytes; `shape_fits` rules both out.
    #[verifier::external_body]
    pub(crate) fn zeros(rows: usize, cols: usize) -> (m: FeatureMatrix)
        requires
            shape_fits(rows as nat, cols as nat),
        ensures
            matrix_rows(&m) == zero_rows(rows as nat, cols as nat),
            matrix_width(&m) == cols,
    {
        FeatureMatrix { cells: ndarray::Array2::zeros((rows, cols)) }
    }

    /// Calls `ndarray::ArrayBase::nrows`.
    ///
    /// Trusted: the length of axis 0 is the number of rows.
    #[verifier::external_body]
    pub(crate) fn nrows(&self) -> (n: usize)
        ensures
            n == matrix_rows(self).len(),
    {
        self.cells.nrows()
    }

    /// Calls `ndarray::ArrayBase::ncols`.
    ///
    /// Trusted: the length of axis 1 is the width, and the array is
    /// rectangular, so every row has exactly that many cells.
    #[verifier::external_body]
    pub(crate) fn ncols(&self) -> (n: usize)
        ensures
            n == matrix_width(self),
            forall|i: int| 0 <= i < matrix_rows(self).len() ==> (#[trigger] matrix_rows(self)[i]).len() == n,
    {
        self.cells.ncols()
    }

    /// Reads `self.cells[[row, col]]` through ndarray's `Index<[usize; 2]>`.
    ///
    /// Trusted: indexing returns the cell at that row and column. Indexing
    /// panics out of bounds, which the precondition rules out.
    #[verifier::external_body]
    pub(crate) fn cell(&self, row: usize, col: usize) -> (v: i64)
        requires
            row < matrix_rows(self).len(),
            col < matrix_width(self),
        ensures
            v == matrix_rows(self)[row as int][col as int],
    {
        self.cells[[row, col]]
    }

    /// Writes `self.cells[[row, col]]` through ndarray's `IndexMut<[usize; 2]>`.
    ///
    /// Trusted: the one cell changes to `value`, every other cell and the
    /// shape stay as they were. Indexing panics out of bounds, which the
    /// precondition rules out.
    #[verifier::external_body]
    pub(crate) fn put(&mut self, row: usize, col: usize, value: i64)
        requires
            row < matrix_rows(old(self)).len(),
            col < matrix_width(old(self)),
        ensures
            matrix_rows(final(self)) == matrix_rows(old(self)).update(
                row as int,
                matrix_rows(old(self))[row as int].update(col as int, value),
            ),
            matrix_width(final(self)) == matrix_width(old(self)),
    {
        self.cells[[row, col]] = value;
    }

    /// Calls `ndarray::ArrayBase::row` and `to_vec` on the view it returns.
    ///
    /// Trusted: the vector holds the cells of that row in column order.
    /// `row` panics out of bounds, which the precondition rules out.
    #[verifier::external_body]
    pub(crate) fn row_to_vec(&self, row: usize) -> (cells: Vec<i64>)
        requires
            row < matrix_rows(self).len(),
        ensures
            cells@ == matrix_rows(self)[row as int],
    {
        self.cells.row(row).to_vec()
    }
}

/// The length of the first row; zero when there is none.
pub open spec fn row_length(rows: Seq<Seq<i64>>) -> nat {
    if rows.len() == 0 {
        0
    } else {
        rows[0].len()
    }
}

/// Every row has the length of the first.
pub open spec fn same_length(rows: Seq<Seq<i64>>) -> bool {
    forall|i: int| 0 <= i < rows.len() ==> (#[trigger] rows[i]).len() == row_length(rows)
}

/// Whether an array of this shape can be allocated.
pub fn shape_allowed(rows: usize, cols: usize) -> (ok: bool)
    ensures
        ok == shape_fits(rows as nat, cols as nat),
{
    let limit: usize = isize::MAX as usize;
    if rows > limit || cols > limit {
        return false;
    }
    match rows.checked_mul(cols) {
        None => {
            assert(rows * cols * 8 >= rows * cols) by (nonlinear_arith)
                requires
                    rows * cols >= 0,
            ;
            false
        },
        Some(cells) => match cells.checked_mul(8) {
            None => false,
            Some(bytes) => bytes <= limit,
        },
    }
}

impl FeatureMatrix {
    /// The number of rows.
    pub fn height(&self) -> (n: usize)
        ensures
            n == self@.len(),
    {
        self.nrows()
    }

    /// The number of columns.
    pub fn columns(&self) -> (n: usize)
        ensures
            n == self.width(),
            forall|i: int| 0 <= i < self@.len() ==> (#[trigger] self@[i]).len() == n,
    {
        self.ncols()
    }

    /// The cell at `row` and `col`, or `None` outside the matrix.
    pub fn get(&self, row: usize, col: usize) -> (value: Option<i64>)
        ensures
            value == if row < self@.len() && col < self.width() {
                Some(self@[row as int][col as int])
            } else {
                None
            },
    {
        if row < self.nrows() && col < self.ncols() {
            Some(self.cell(row, col))
        } else {
            None
        }
    }

    /// The cells of row `row`, or `None` outside the matrix.
    pub fn row(&self, row: usize) -> (cells: Option<Vec<i64>>)
        ensures
            match cells {
                Some(v) => row < self@.len() && v@ == self@[row as int],
                None => row >= self@.len(),
            },
    {
        if row < self.nrows() {
            Some(self.row_to_vec(row))
        } else {
            None
        }
    }

    /// Overwrites row `row` with `values`.
    pub fn set_row(&mut self, row: usize, values: &Vec<i64>)
        requires
            row < old(self)@.len(),
            values.len() == old(self).width(),
        ensures
            final(self)@ == old(self)@.update(row as int, values@),
            final(self).width() == old(self).width(),
    {
        let cols = self.ncols();
        let ghost start = self@;
        let mut col: usize = 0;
        while col < cols
            invariant
                col <= cols,
                cols == values.len(),
                self.width() == cols,
                row < start.len(),
                self@.len() == start.len(),
                self@[row as int].len() == cols,
                forall|r: int| 0 <= r < start.len() && r != row ==> #[trigger] self@[r] == start[r],
                forall|c: int| 0 <= c < col ==> #[trigger] self@[row as int][c] == values@[c],
            decreases cols - col,
        {
            self.put(row, col, values[col]);
            col += 1;
        }
        assert(self@[row as int] =~= values@);
        assert(self@ =~= start.update(row as int, values@));
    }

    /// A matrix holding the given rows, which must all have the length of
    /// the first. `None` when they do not, or when the shape is too large to
    /// allocate.
    pub fn from_rows(rows: &Vec<Vec<i64>>) -> (m: Option<FeatureMatrix>)
        ensures
            match m {
                Some(m) => {
                    &&& m@ == rows.deep_view()
                    &&& m.width() == row_length(rows.deep_view())
                    &&& same_length(rows.deep_view())
                    &&& shape_fits(rows.len() as nat, row_length(rows.deep_view()))
                },
                None => !same_length(rows.deep_view()) || !shape_fits(
                    rows.len() as nat,
                    row_length(rows.deep_view()),
                ),
            },
    {
        let cols: usize = if rows.len() == 0 {
            0
        } else {
            rows[0].len()
        };
        let ghost given = rows.deep_view();
        assert(given.len() == rows.len());
        assert(forall|i: int| 0 <= i < rows.len() ==> #[trigger] given[i] == rows@[i]@);
        assert(cols == row_length(given));
        let mut k: usize = 0;
        while k < rows.len()
            invariant
                k <= rows.len(),
                given == rows.deep_view(),
                given.len() == rows.len(),
                forall|i: int| 0 <= i < rows.len() ==> #[trigger] given[i] == rows@[i]@,
                forall|i: int| 0 <= i < k ==> (#[trigger] given[i]).len() == cols,
                cols == row_length(given),
            decreases rows.len() - k,
        {
            if rows[k].len() != cols {
                assert(given[k as int].len() != cols);
                return None;
            }
            k += 1;
        }
        if !shape_allowed(rows.len(), cols) {
            return None;
        }
        let mut m = FeatureMatrix::zeros(rows.len(), cols);
        let mut r: usize = 0;
        while r < rows.len()
            invariant
                r <= rows.len(),
                m@.len() == rows.len(),
                m.width() == cols,
                given == rows.deep_view(),
                given.len() == rows.len(),
                forall|i: int| 0 <= i < rows.len() ==> #[trigger] given[i] == rows@[i]@,
                forall|i: int| 0 <= i < rows.len() ==> (#[trigger] given[i]).len() == cols,
                forall|i: int| 0 <= i < r ==> #[trigger] m@[i] == given[i],
            decreases rows.len() - r,
        {
            assert(given[r as int].len() == cols);
            m.set_row(r, &rows[r]);
            r += 1;
        }
        assert(m@ =~= given);
        Some(m)
    }
}

} // verus!
