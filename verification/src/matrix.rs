//! A rectangular matrix stored in row-major order, the carrier for image
//! intensities, depth samples, gradients and candidate masks.

use vstd::prelude::*;

verus! {

/// A dense `rows` x `cols` matrix stored as one row-major vector.
///
/// A value is meaningful only when it is well formed (`wf`): the data vector
/// holds exactly `rows * cols` elements. Every constructor of this crate
/// establishes `wf` and every operation preserves it.
pub struct Matrix<T> {
    pub rows: usize,
    pub cols: usize,
    pub data: Vec<T>,
}

impl<T> Matrix<T> {
    /// Well-formedness: the storage holds exactly one element per cell.
    pub open spec fn wf(&self) -> bool {
        self.data@.len() == self.rows * self.cols
    }

    /// Number of rows, as a mathematical integer.
    pub open spec fn nrows(&self) -> int {
        self.rows as int
    }

    /// Number of columns, as a mathematical integer.
    pub open spec fn ncols(&self) -> int {
        self.cols as int
    }

    /// The element at row `i`, column `j`.
    pub open spec fn entry(&self, i: int, j: int) -> T {
        self.data@[i * self.ncols() + j]
    }

    /// Both dimensions are at least 2, so a 2x2 block fits.
    pub open spec fn halvable(&self) -> bool {
        self.nrows() / 2 > 0 && self.ncols() / 2 > 0
    }

    /// Number of rows.
    pub fn num_rows(&self) -> (r: usize)
        ensures
            r == self.nrows(),
    {
        self.rows
    }

    /// Number of columns.
    pub fn num_cols(&self) -> (r: usize)
        ensures
            r == self.ncols(),
    {
        self.cols
    }

    /// Build a matrix from a row-major vector, or `None` when the element
    /// count does not match the requested shape.
    pub fn from_row_major(rows: usize, cols: usize, data: Vec<T>) -> (r: Option<Matrix<T>>)
        ensures
            match r {
                Some(m) => {
                    &&& m.wf()
                    &&& m.nrows() == rows
                    &&& m.ncols() == cols
                    &&& m.data@ == data@
                    &&& data@.len() == rows * cols
                },
                None => data@.len() != rows * cols,
            },
    {
        match rows.checked_mul(cols) {
            Some(n) => {
                if n == data.len() {
                    Some(Matrix { rows, cols, data })
                } else {
                    None
                }
            },
            None => {
                // The requested shape exceeds the address space, so no vector
                // can hold it.
                let len = data.len();
                assert(len < rows * cols);
                None
            },
        }
    }
}

impl<T: Copy> Matrix<T> {
    /// Apply a function to every element, keeping the shape.
    pub fn map_entries<U, C: Fn(T) -> U>(&self, f: C) -> (r: Matrix<U>)
        requires
            self.wf(),
            forall|t: T| #[trigger] call_requires(f, (t,)),
        ensures
            r.wf(),
            r.nrows() == self.nrows(),
            r.ncols() == self.ncols(),
            forall|i: int, j: int|
                0 <= i < r.nrows() && 0 <= j < r.ncols() ==> call_ensures(
                    f,
                    (self.entry(i, j),),
                    #[trigger] r.entry(i, j),
                ),
    {
        let n = self.data.len();
        let mut data: Vec<U> = Vec::new();
        let mut k: usize = 0;
        while k < n
            invariant
                self.wf(),
                forall|t: T| #[trigger] call_requires(f, (t,)),
                n == self.data@.len(),
                k <= n,
                data@.len() == k,
                forall|k2: int|
                    0 <= k2 < k ==> call_ensures(
                        f,
                        (self.data@[k2],),
                        #[trigger] data@[k2],
                    ),
            decreases n - k,
        {
            data.push(f(self.data[k]));
            k = k + 1;
        }
        let r = Matrix { rows: self.rows, cols: self.cols, data };
        proof {
            assert forall|i: int, j: int|
                0 <= i < r.nrows() && 0 <= j < r.ncols() implies call_ensures(
                f,
                (self.entry(i, j),),
                #[trigger] r.entry(i, j),
            ) by {
                lemma_row_major_index(self.nrows(), self.ncols(), i, j);
            }
        }
        r
    }

    /// Read one element.
    pub fn get(&self, i: usize, j: usize) -> (r: T)
        requires
            self.wf(),
            i < self.nrows(),
            j < self.ncols(),
        ensures
            r == self.entry(i as int, j as int),
    {
        let n = self.data.len();
        proof {
            lemma_row_major_index(self.nrows(), self.ncols(), i as int, j as int);
            assert(i * self.ncols() + j < n);
        }
        self.data[i * self.cols + j]
    }
}

/// Two matrices have the same shape and the same element in every cell.
pub open spec fn same_entries<T>(a: Matrix<T>, b: Matrix<T>) -> bool {
    &&& a.nrows() == b.nrows()
    &&& a.ncols() == b.ncols()
    &&& forall|i: int, j: int|
        0 <= i < a.nrows() && 0 <= j < a.ncols() ==> a.entry(i, j) == b.entry(i, j)
}

/// A row-major index stays within the storage of a well formed matrix.
pub proof fn lemma_row_major_index(rows: int, cols: int, i: int, j: int)
    requires
        0 <= i < rows,
        0 <= j < cols,
    ensures
        0 <= i * cols + j < rows * cols,
{
    assert(0 <= i * cols + j < rows * cols) by (nonlinear_arith)
        requires
            0 <= i < rows,
            0 <= j < cols,
    ;
}

/// Row-major indices respect the row-then-column order: an earlier cell has a
/// strictly smaller index.
pub proof fn lemma_row_major_order(cols: int, i1: int, j1: int, i2: int, j2: int)
    requires
        0 <= j1 < cols,
        0 <= j2 < cols,
        i1 < i2 || (i1 == i2 && j1 < j2),
        0 <= i1,
    ensures
        i1 * cols + j1 < i2 * cols + j2,
{
    assert(i1 * cols + j1 < i2 * cols + j2) by (nonlinear_arith)
        requires
            0 <= j1 < cols,
            0 <= j2 < cols,
            i1 < i2 || (i1 == i2 && j1 < j2),
            0 <= i1,
    ;
}

} // verus!
