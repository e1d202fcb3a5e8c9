//! Conversions between raw decoded image buffers and matrices.

use vstd::prelude::*;
use vstd::slice::slice_index_get;

use crate::matrix::Matrix;

verus! {

/// The 16-bit big-endian sample starting at byte `2 * k` of `buf`.
pub open spec fn u16_be_at(buf: Seq<u8>, k: int) -> int {
    256 * buf[2 * k] + buf[2 * k + 1]
}

/// Reassemble a byte buffer into the 16-bit big-endian samples it encodes.
/// A trailing odd byte carries no full sample and is dropped.
pub fn read_u16_be_buffer(buf: &[u8]) -> (r: Vec<u16>)
    ensures
        r@.len() == buf@.len() / 2,
        forall|k: int| 0 <= k < r@.len() ==> r@[k] == u16_be_at(buf@, k),
{
    let n = buf.len() / 2;
    let mut r: Vec<u16> = Vec::new();
    let mut k: usize = 0;
    while k < n
        invariant
            n == buf@.len() / 2,
            n <= usize::MAX / 2,
            k <= n,
            r@.len() == k,
            forall|k2: int| 0 <= k2 < k ==> r@[k2] == u16_be_at(buf@, k2),
        decreases n - k,
    {
        let hi = *slice_index_get(buf, 2 * k);
        let lo = *slice_index_get(buf, 2 * k + 1);
        r.push((hi as u16) * 256 + lo as u16);
        k = k + 1;
    }
    r
}

/// Shape the 16-bit big-endian samples of a decoded depth image into an
/// `h` x `w` matrix, or `None` when the buffer does not hold exactly one
/// sample per pixel.
pub fn depth_matrix_from_be_bytes(h: usize, w: usize, buf: &[u8]) -> (r: Option<Matrix<u16>>)
    ensures
        match r {
            Some(m) => {
                &&& m.wf()
                &&& m.nrows() == h
                &&& m.ncols() == w
                &&& buf@.len() / 2 == h * w
                &&& forall|i: int, j: int|
                    0 <= i < h && 0 <= j < w ==> #[trigger] m.entry(i, j) == u16_be_at(
                        buf@,
                        i * w + j,
                    )
            },
            None => buf@.len() / 2 != h * w,
        },
{
    let samples = read_u16_be_buffer(buf);
    let r = Matrix::from_row_major(h, w, samples);
    proof {
        if r is Some {
            let m = r->Some_0;
            assert forall|i: int, j: int| 0 <= i < h && 0 <= j < w implies #[trigger] m.entry(i, j)
                == u16_be_at(buf@, i * w + j) by {
                crate::matrix::lemma_row_major_index(h as int, w as int, i, j);
            }
        }
    }
    r
}

} // verus!
