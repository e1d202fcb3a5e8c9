//! The tracker's reference-frame snapshot: the intensity pyramid with its
//! gradients, the candidate masks and the fused inverse-depth pyramid, built
//! together so that their resolutions line up level by level.
//!
//! A snapshot is an immutable value: each tracking step builds a whole new
//! one from the frame it just processed instead of mutating the old one.

use vstd::prelude::*;

use crate::candidates;
use crate::candidates::is_candidates_of;
use crate::inverse_depth::{fuse_pyramid, is_fused_half, InverseDepth};
use crate::matrix::Matrix;
use crate::multires;
use crate::multires::{
    halving_step, is_gradient_of, is_half_mean, lemma_halving_chain_avail, pyramid_len,
};

verus! {

/// Everything the photometric optimizer reads about the reference frame.
pub struct ReferenceFrame<F> {
    /// Intensity images, full resolution first, each level half the one
    /// before.
    pub img_pyramid: Vec<Matrix<u8>>,
    /// Centered (horizontal, vertical) gradients of each level but the
    /// last, at the resolution of the following level.
    pub gradients: Vec<(Matrix<i16>, Matrix<i16>)>,
    /// Candidate masks, one per gradient level, at the same resolution.
    pub masks: Vec<Matrix<bool>>,
    /// Fused inverse-depth observations, one level per intensity level.
    pub idepth_pyramid: Vec<Matrix<InverseDepth<F>>>,
}

/// `r` is the snapshot of an intensity image and its level-0 inverse-depth
/// observations: pyramid, gradients, masks and fused observations are what
/// the builders of this crate state of them, level by level.
pub open spec fn is_snapshot_of<F, S: Fn(Vec<(F, F)>) -> InverseDepth<F>>(
    r: ReferenceFrame<F>,
    max_levels: int,
    threshold: u16,
    img: Matrix<u8>,
    idepth0: Matrix<InverseDepth<F>>,
    strategy: S,
) -> bool {
    &&& r.img_pyramid@.len() == pyramid_len(max_levels, img.nrows(), img.ncols())
    &&& r.img_pyramid@[0] == img
    &&& forall|k: int| 0 <= k < r.img_pyramid@.len() ==> (#[trigger] r.img_pyramid@[k]).wf()
    &&& forall|k: int|
        0 <= k < r.img_pyramid@.len() - 1 ==> is_half_mean(
            r.img_pyramid@[k],
            #[trigger] r.img_pyramid@[k + 1],
        )
    &&& r.gradients@.len() == r.img_pyramid@.len() - 1
    &&& forall|k: int|
        0 <= k < r.gradients@.len() ==> is_gradient_of(
            r.img_pyramid@[k],
            (#[trigger] r.gradients@[k]).0,
            true,
        ) && is_gradient_of(r.img_pyramid@[k], r.gradients@[k].1, false)
    &&& r.masks@.len() == r.gradients@.len()
    &&& forall|k: int|
        0 <= k < r.masks@.len() ==> is_candidates_of(
            threshold,
            r.img_pyramid@[k],
            #[trigger] r.masks@[k],
        )
    &&& r.idepth_pyramid@.len() == pyramid_len(max_levels, idepth0.nrows(), idepth0.ncols())
    &&& r.idepth_pyramid@[0] == idepth0
    &&& forall|k: int| 0 <= k < r.idepth_pyramid@.len() ==> (#[trigger] r.idepth_pyramid@[k]).wf()
    &&& forall|k: int|
        0 <= k < r.idepth_pyramid@.len() - 1 ==> is_fused_half(
            strategy,
            r.idepth_pyramid@[k],
            #[trigger] r.idepth_pyramid@[k + 1],
        )
}

/// Build the reference snapshot of one frame: its mean intensity pyramid,
/// the gradient pair of every level but the last, the candidate mask of
/// each gradient level, and the inverse-depth pyramid fused through the
/// given strategy.
pub fn reference_frame<F: Copy, S: Fn(Vec<(F, F)>) -> InverseDepth<F> + Copy>(
    max_levels: usize,
    diff_threshold: u16,
    img: Matrix<u8>,
    idepth_level0: Matrix<InverseDepth<F>>,
    strategy: S,
) -> (r: ReferenceFrame<F>)
    requires
        img.wf(),
        idepth_level0.wf(),
        forall|v: Vec<(F, F)>| #[trigger] call_requires(strategy, (v,)),
    ensures
        is_snapshot_of(r, max_levels as int, diff_threshold, img, idepth_level0, strategy),
{
    let ghost img0 = img;
    let img_pyramid = multires::mean_pyramid(max_levels, img);
    proof {
        multires::lemma_avail_ge_one(img0.nrows(), img0.ncols());
        assert forall|k: int|
            0 <= k < img_pyramid@.len() - 1 implies (#[trigger] img_pyramid@[k]).halvable() by {
            assert(is_half_mean(img_pyramid@[k], img_pyramid@[k + 1]));
        }
    }
    let gradients = multires::gradients_xy(&img_pyramid);
    let norms = multires::gradients_squared_norm(&img_pyramid);
    let masks = candidates::select(diff_threshold, &norms);
    let idepth_pyramid = fuse_pyramid(max_levels, idepth_level0, strategy);
    proof {
        assert forall|k: int| 0 <= k < masks@.len() implies is_candidates_of(
            diff_threshold,
            img_pyramid@[k],
            #[trigger] masks@[k],
        ) by {
            candidates::lemma_candidates_composition(
                diff_threshold,
                img_pyramid@[k],
                norms@[k],
                masks@[k],
            );
        }
    }
    ReferenceFrame { img_pyramid, gradients, masks, idepth_pyramid }
}

/// The resolutions of a snapshot line up: gradients and masks of level `k`
/// have exactly the shape of intensity level `k + 1`, the inverse-depth
/// pyramid is as long as the intensity pyramid whenever its first level has
/// the shape of the image, and then each of its levels has the shape of the
/// matching intensity level.
pub proof fn lemma_snapshot_alignment<F, S: Fn(Vec<(F, F)>) -> InverseDepth<F>>(
    r: ReferenceFrame<F>,
    max_levels: int,
    threshold: u16,
    img: Matrix<u8>,
    idepth0: Matrix<InverseDepth<F>>,
    strategy: S,
)
    requires
        is_snapshot_of(r, max_levels, threshold, img, idepth0, strategy),
        idepth0.nrows() == img.nrows(),
        idepth0.ncols() == img.ncols(),
    ensures
        forall|k: int|
            0 <= k < r.gradients@.len() ==> {
                &&& (#[trigger] r.gradients@[k]).0.nrows() == r.img_pyramid@[k + 1].nrows()
                &&& r.gradients@[k].0.ncols() == r.img_pyramid@[k + 1].ncols()
                &&& r.gradients@[k].1.nrows() == r.img_pyramid@[k + 1].nrows()
                &&& r.gradients@[k].1.ncols() == r.img_pyramid@[k + 1].ncols()
                &&& r.masks@[k].nrows() == r.img_pyramid@[k + 1].nrows()
                &&& r.masks@[k].ncols() == r.img_pyramid@[k + 1].ncols()
            },
        r.idepth_pyramid@.len() == r.img_pyramid@.len(),
        forall|k: int|
            0 <= k < r.idepth_pyramid@.len() ==> {
                &&& (#[trigger] r.idepth_pyramid@[k]).nrows() == r.img_pyramid@[k].nrows()
                &&& r.idepth_pyramid@[k].ncols() == r.img_pyramid@[k].ncols()
            },
{
    assert forall|k: int| 0 <= k < r.gradients@.len() implies {
        &&& (#[trigger] r.gradients@[k]).0.nrows() == r.img_pyramid@[k + 1].nrows()
        &&& r.gradients@[k].0.ncols() == r.img_pyramid@[k + 1].ncols()
        &&& r.gradients@[k].1.nrows() == r.img_pyramid@[k + 1].nrows()
        &&& r.gradients@[k].1.ncols() == r.img_pyramid@[k + 1].ncols()
        &&& r.masks@[k].nrows() == r.img_pyramid@[k + 1].nrows()
        &&& r.masks@[k].ncols() == r.img_pyramid@[k + 1].ncols()
    } by {
        assert(is_half_mean(r.img_pyramid@[k], r.img_pyramid@[k + 1]));
    }
    assert forall|k: int| 0 <= k < r.idepth_pyramid@.len() implies {
        &&& (#[trigger] r.idepth_pyramid@[k]).nrows() == r.img_pyramid@[k].nrows()
        &&& r.idepth_pyramid@[k].ncols() == r.img_pyramid@[k].ncols()
    } by {
        lemma_parallel_halving(r.img_pyramid@, r.idepth_pyramid@, k);
    }
}

/// Two halving chains that start at the same shape keep the same shape,
/// level by level.
proof fn lemma_parallel_halving<T, U>(a: Seq<Matrix<T>>, b: Seq<Matrix<U>>, k: int)
    requires
        0 <= k < a.len(),
        0 <= k < b.len(),
        a.len() > 0,
        b.len() > 0,
        a[0].nrows() == b[0].nrows(),
        a[0].ncols() == b[0].ncols(),
        forall|j: int| 0 <= j < a.len() - 1 ==> halving_step(a[j], #[trigger] a[j + 1]),
        forall|j: int| 0 <= j < b.len() - 1 ==> halving_step(b[j], #[trigger] b[j + 1]),
    ensures
        a[k].nrows() == b[k].nrows(),
        a[k].ncols() == b[k].ncols(),
    decreases k,
{
    if k > 0 {
        lemma_parallel_halving(a, b, k - 1);
        assert(halving_step(a[k - 1], a[(k - 1) + 1]));
        assert(halving_step(b[k - 1], b[(k - 1) + 1]));
    }
}

} // verus!
