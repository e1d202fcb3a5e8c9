//! Selection of candidate pixels for photometric optimization: a pixel is a
//! candidate when its gradient magnitude exceeds a configured threshold.
//! Selection is independent per level and per pixel.

use vstd::prelude::*;

use crate::matrix::Matrix;
use crate::matrix::lemma_row_major_index;
use crate::matrix::lemma_row_major_order;
use crate::matrix::same_entries;

verus! {

/// `mask` marks exactly the pixels of `grad` whose value exceeds
/// `threshold`.
pub open spec fn is_selection_of(threshold: u16, grad: Matrix<u16>, mask: Matrix<bool>) -> bool {
    &&& mask.wf()
    &&& mask.nrows() == grad.nrows()
    &&& mask.ncols() == grad.ncols()
    &&& forall|i: int, j: int|
        0 <= i < mask.nrows() && 0 <= j < mask.ncols() ==> #[trigger] mask.entry(i, j) == (
        grad.entry(i, j) > threshold)
}

/// Mark the pixels of one gradient-magnitude matrix that exceed the
/// threshold.
pub fn select_at_level(diff_threshold: u16, grad: &Matrix<u16>) -> (mask: Matrix<bool>)
    requires
        grad.wf(),
    ensures
        is_selection_of(diff_threshold, *grad, mask),
{
    let rows = grad.num_rows();
    let cols = grad.num_cols();
    let mut data: Vec<bool> = Vec::new();
    let mut i: usize = 0;
    while i < rows
        invariant
            grad.wf(),
            rows == grad.nrows(),
            cols == grad.ncols(),
            i <= rows,
            data@.len() == i * cols,
            forall|i2: int, j2: int|
                0 <= i2 < i && 0 <= j2 < cols ==> #[trigger] data@[i2 * cols + j2] == (grad.entry(
                    i2,
                    j2,
                ) > diff_threshold),
        decreases rows - i,
    {
        let mut j: usize = 0;
        while j < cols
            invariant
                grad.wf(),
                rows == grad.nrows(),
                cols == grad.ncols(),
                i < rows,
                j <= cols,
                data@.len() == i * cols + j,
                forall|i2: int, j2: int|
                    0 <= i2 < rows && 0 <= j2 < cols && (i2 < i || (i2 == i && j2 < j))
                        ==> #[trigger] data@[i2 * cols + j2] == (grad.entry(i2, j2)
                        > diff_threshold),
            decreases cols - j,
        {
            proof {
                lemma_row_major_index(rows as int, cols as int, i as int, j as int);
            }
            let g = grad.get(i, j);
            data.push(g > diff_threshold);
            j = j + 1;
            proof {
                assert forall|i2: int, j2: int|
                    0 <= i2 < rows && 0 <= j2 < cols && (i2 < i || (i2 == i && j2 < j))
                        implies #[trigger] data@[i2 * cols + j2] == (grad.entry(i2, j2)
                    > diff_threshold) by {
                    if i2 < i || j2 < j - 1 {
                        lemma_row_major_order(cols as int, i2, j2, i as int, j - 1);
                    }
                }
            }
        }
        i = i + 1;
        proof {
            assert(i * cols == (i - 1) * cols + cols) by (nonlinear_arith);
        }
    }
    Matrix { rows, cols, data }
}

/// Mark candidate pixels on every level of a gradient-magnitude pyramid.
pub fn select(diff_threshold: u16, gradients: &Vec<Matrix<u16>>) -> (masks: Vec<Matrix<bool>>)
    requires
        forall|k: int| 0 <= k < gradients@.len() ==> (#[trigger] gradients@[k]).wf(),
    ensures
        masks@.len() == gradients@.len(),
        forall|k: int|
            0 <= k < masks@.len() ==> is_selection_of(
                diff_threshold,
                gradients@[k],
                #[trigger] masks@[k],
            ),
{
    let mut masks: Vec<Matrix<bool>> = Vec::new();
    let mut k: usize = 0;
    while k < gradients.len()
        invariant
            forall|k2: int| 0 <= k2 < gradients@.len() ==> (#[trigger] gradients@[k2]).wf(),
            k <= gradients@.len(),
            masks@.len() == k,
            forall|k2: int|
                0 <= k2 < k ==> is_selection_of(
                    diff_threshold,
                    gradients@[k2],
                    #[trigger] masks@[k2],
                ),
        decreases gradients@.len() - k,
    {
        masks.push(select_at_level(diff_threshold, &gradients[k]));
        k = k + 1;
    }
    masks
}

/// `mask` marks exactly the 2x2 blocks of the intensity image `src` whose
/// scaled squared gradient norm exceeds the threshold: the composition of
/// the gradient-norm halving and the per-pixel selection.
pub open spec fn is_candidates_of(threshold: u16, src: Matrix<u8>, mask: Matrix<bool>) -> bool {
    &&& mask.wf()
    &&& mask.nrows() == src.nrows() / 2
    &&& mask.ncols() == src.ncols() / 2
    &&& forall|i: int, j: int|
        0 <= i < mask.nrows() && 0 <= j < mask.ncols() ==> #[trigger] mask.entry(i, j) == (
        crate::gradient::bloc_squared_norm_spec(
            src.entry(2 * i, 2 * j),
            src.entry(2 * i + 1, 2 * j),
            src.entry(2 * i, 2 * j + 1),
            src.entry(2 * i + 1, 2 * j + 1),
        ) > threshold)
}

/// Selecting on the squared-norm pyramid of an intensity image marks
/// exactly the high-gradient blocks of that image.
pub proof fn lemma_candidates_composition(
    threshold: u16,
    src: Matrix<u8>,
    g: Matrix<u16>,
    mask: Matrix<bool>,
)
    requires
        crate::multires::is_squared_norm_of(src, g),
        is_selection_of(threshold, g, mask),
    ensures
        is_candidates_of(threshold, src, mask),
{
    assert forall|i: int, j: int|
        0 <= i < mask.nrows() && 0 <= j < mask.ncols() implies #[trigger] mask.entry(i, j) == (
    crate::gradient::bloc_squared_norm_spec(
        src.entry(2 * i, 2 * j),
        src.entry(2 * i + 1, 2 * j),
        src.entry(2 * i, 2 * j + 1),
        src.entry(2 * i + 1, 2 * j + 1),
    ) > threshold) by {
        assert(mask.entry(i, j) == (g.entry(i, j) > threshold));
    }
}

/// Candidate selection is deterministic: two selections over the same
/// gradient matrix with the same threshold mark exactly the same pixels.
pub proof fn lemma_selection_deterministic(
    threshold: u16,
    grad: Matrix<u16>,
    m1: Matrix<bool>,
    m2: Matrix<bool>,
)
    requires
        is_selection_of(threshold, grad, m1),
        is_selection_of(threshold, grad, m2),
    ensures
        same_entries(m1, m2),
{
}

} // verus!
