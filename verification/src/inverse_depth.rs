//! Inverse-depth observations and the fusion plumbing that merges four
//! finer-level observations into one coarser-level observation.
//!
//! An observation is either absent, judged inconsistent, or a value with its
//! uncertainty. Fusion strategies are pure functions from the list of valid
//! child observations to one parent observation; they are pluggable so that
//! different merging policies can be compared. The scalar type is generic:
//! the numeric strategies themselves are supplied by the caller.

use vstd::prelude::*;

use crate::matrix::Matrix;
use crate::multires::{halve, limited_sequence};

verus! {

/// One inverse-depth observation at a pixel.
///
/// `Unknown`: no observation. `Discarded`: observations were present but
/// judged inconsistent. `WithVariance(depth, variance)`: a valid estimate
/// with its uncertainty.
#[derive(Clone, Copy, PartialEq, Debug)]
pub enum InverseDepth<F> {
    Unknown,
    Discarded,
    WithVariance(F, F),
}

/// The (depth, variance) list contributed by one child observation: a
/// singleton for a valid estimate, nothing otherwise.
pub open spec fn valid_value<F>(c: InverseDepth<F>) -> Seq<(F, F)> {
    match c {
        InverseDepth::WithVariance(d, v) => seq![(d, v)],
        _ => Seq::empty(),
    }
}

/// The (depth, variance) pairs of the four children that hold a valid
/// estimate, in child order.
pub open spec fn fused_inputs<F>(
    a: InverseDepth<F>,
    b: InverseDepth<F>,
    c: InverseDepth<F>,
    d: InverseDepth<F>,
) -> Seq<(F, F)> {
    valid_value(a) + valid_value(b) + valid_value(c) + valid_value(d)
}

/// Convert one raw depth sample into an observation: a zero sample means
/// "no depth" and becomes `Unknown`, never a valid estimate; any other
/// sample becomes a valid estimate made of the converted depth and the
/// configured variance.
///
/// The numeric conversion (the reciprocal of the rescaled sample) is the
/// caller's.
pub fn from_depth<F: Copy, C: Fn(u16) -> F>(depth: u16, convert: C, variance: F) -> (r:
    InverseDepth<F>)
    requires
        forall|d: u16| d != 0 ==> #[trigger] call_requires(convert, (d,)),
    ensures
        depth == 0 ==> r == InverseDepth::<F>::Unknown,
        depth != 0 ==> match r {
            InverseDepth::WithVariance(d0, v0) => v0 == variance && call_ensures(
                convert,
                (depth,),
                d0,
            ),
            _ => false,
        },
{
    if depth == 0 {
        InverseDepth::Unknown
    } else {
        InverseDepth::WithVariance(convert(depth), variance)
    }
}

/// Fuse four child observations into one parent observation.
///
/// When no child holds a valid estimate the parent is `Unknown` and the
/// strategy is not consulted; otherwise the parent is whatever the strategy
/// decides from the valid (depth, variance) pairs, in child order.
pub fn fuse<F: Copy, S: Fn(Vec<(F, F)>) -> InverseDepth<F>>(
    a: InverseDepth<F>,
    b: InverseDepth<F>,
    c: InverseDepth<F>,
    d: InverseDepth<F>,
    strategy: S,
) -> (r: InverseDepth<F>)
    requires
        forall|v: Vec<(F, F)>| #[trigger] call_requires(strategy, (v,)),
    ensures
        fused_inputs(a, b, c, d).len() == 0 ==> r == InverseDepth::<F>::Unknown,
        fused_inputs(a, b, c, d).len() > 0 ==> exists|v: Vec<(F, F)>|
            v@ == fused_inputs(a, b, c, d) && call_ensures(strategy, (v,), r),
{
    let mut valids: Vec<(F, F)> = Vec::new();
    if let InverseDepth::WithVariance(depth, var) = a {
        valids.push((depth, var));
    }
    if let InverseDepth::WithVariance(depth, var) = b {
        valids.push((depth, var));
    }
    if let InverseDepth::WithVariance(depth, var) = c {
        valids.push((depth, var));
    }
    if let InverseDepth::WithVariance(depth, var) = d {
        valids.push((depth, var));
    }
    proof {
        assert(valids@ =~= fused_inputs(a, b, c, d));
    }
    if valids.len() == 0 {
        InverseDepth::Unknown
    } else {
        let ghost witness = valids;
        let r = strategy(valids);
        proof {
            assert(witness@ == fused_inputs(a, b, c, d) && call_ensures(strategy, (witness,), r));
        }
        r
    }
}

/// What one parent observation may be, given its four children: `Unknown`
/// when no child holds a valid estimate, otherwise an outcome of the
/// strategy on the children's valid (depth, variance) pairs, in child
/// order.
pub open spec fn fused_obs<F, S: Fn(Vec<(F, F)>) -> InverseDepth<F>>(
    strategy: S,
    a: InverseDepth<F>,
    b: InverseDepth<F>,
    c: InverseDepth<F>,
    d: InverseDepth<F>,
    r: InverseDepth<F>,
) -> bool {
    if fused_inputs(a, b, c, d).len() == 0 {
        r == InverseDepth::<F>::Unknown
    } else {
        exists|v: Vec<(F, F)>| v@ == fused_inputs(a, b, c, d) && call_ensures(strategy, (v,), r)
    }
}

/// `dst` is `src` halved by fusing each 2x2 block of observations through
/// the strategy.
pub open spec fn is_fused_half<F, S: Fn(Vec<(F, F)>) -> InverseDepth<F>>(
    strategy: S,
    src: Matrix<InverseDepth<F>>,
    dst: Matrix<InverseDepth<F>>,
) -> bool {
    &&& src.halvable()
    &&& dst.wf()
    &&& dst.nrows() == src.nrows() / 2
    &&& dst.ncols() == src.ncols() / 2
    &&& forall|i: int, j: int|
        0 <= i < dst.nrows() && 0 <= j < dst.ncols() ==> fused_obs(
            strategy,
            src.entry(2 * i, 2 * j),
            src.entry(2 * i + 1, 2 * j),
            src.entry(2 * i, 2 * j + 1),
            src.entry(2 * i + 1, 2 * j + 1),
            #[trigger] dst.entry(i, j),
        )
}

/// Build a pyramid of inverse-depth observations, each level half the
/// resolution of the one before, fusing each 2x2 block of children through
/// the given strategy.
///
/// The first level is the input itself. The pyramid stops at `max_levels`
/// levels (`max_levels == 0` acts as 1), or earlier as soon as a level can
/// no longer be halved.
pub fn fuse_pyramid<F: Copy, S: Fn(Vec<(F, F)>) -> InverseDepth<F> + Copy>(
    max_levels: usize,
    level0: Matrix<InverseDepth<F>>,
    strategy: S,
) -> (pyr: Vec<Matrix<InverseDepth<F>>>)
    requires
        level0.wf(),
        forall|v: Vec<(F, F)>| #[trigger] call_requires(strategy, (v,)),
    ensures
        pyr@.len() == crate::multires::pyramid_len(
            max_levels as int,
            level0.nrows(),
            level0.ncols(),
        ),
        pyr@[0] == level0,
        forall|k: int| 0 <= k < pyr@.len() ==> (#[trigger] pyr@[k]).wf(),
        forall|k: int|
            0 <= k < pyr@.len() - 1 ==> is_fused_half(strategy, pyr@[k], #[trigger] pyr@[k + 1]),
{
    let id = |m: Matrix<InverseDepth<F>>| -> (r: Matrix<InverseDepth<F>>)
        ensures
            r == m,
        { m };
    let step = |m: &Matrix<InverseDepth<F>>| -> (r: Option<Matrix<InverseDepth<F>>>)
        requires
            m.wf(),
        ensures
            (match r {
                None => !m.halvable(),
                Some(h) => is_fused_half(strategy, *m, h),
            }),
        {
            let block = |a: InverseDepth<F>, b: InverseDepth<F>, c: InverseDepth<F>, d: InverseDepth<F>| -> (r: InverseDepth<F>)
                ensures
                    fused_obs(strategy, a, b, c, d, r),
                { fuse(a, b, c, d, strategy) };
            halve(m, block)
        };
    let pyr = limited_sequence(max_levels, level0, id, step);
    proof {
        let s = pyr@;
        assert(s[0] == level0);
        assert forall|k: int|
            0 <= k < s.len() - 1 implies crate::multires::halving_step(s[k], #[trigger] s[k + 1])
        by {
            assert(is_fused_half(strategy, s[k], s[k + 1]));
        }
        crate::multires::lemma_halving_chain_avail(s, s.len() - 1);
        crate::multires::lemma_avail_ge_one(s[s.len() - 1].nrows(), s[s.len() - 1].ncols());
        let cap = if max_levels <= 1 {
            1int
        } else {
            max_levels as int
        };
        if s.len() < cap {
            assert(call_ensures(step, (&s[s.len() - 1],), None::<Matrix<InverseDepth<F>>>));
            assert(!s[s.len() - 1].halvable());
            assert(crate::multires::levels_available(
                s[s.len() - 1].nrows(),
                s[s.len() - 1].ncols(),
            ) == 1);
        }
    }
    pyr
}

} // verus!
