//! Multi-resolution pyramids: repeated halving of a matrix through a
//! caller-supplied 2x2 block reduction, the mean pyramid used for image
//! intensities, and the gradient pyramids derived from it.

use vstd::prelude::*;

use crate::gradient;
use crate::matrix::Matrix;
use crate::matrix::lemma_row_major_index;
use crate::matrix::lemma_row_major_order;

verus! {

/// Mean of four intensity samples, rounded down.
pub open spec fn mean4(a: u8, b: u8, c: u8, d: u8) -> int {
    (a + b + c + d) / 4
}

/// How many levels a pyramid starting from an `r` x `c` matrix can have: a
/// level below 2x2 cannot be halved further.
pub open spec fn levels_available(r: int, c: int) -> int
    decreases r,
{
    if r <= 1 || c <= 1 {
        1
    } else {
        1 + levels_available(r / 2, c / 2)
    }
}

/// The length of a pyramid over an `r` x `c` matrix capped at `max_levels`
/// levels: the cap (a cap of 0 acts as 1, the first level is always kept),
/// unless halving bottoms out before reaching it.
pub open spec fn pyramid_len(max_levels: int, r: int, c: int) -> int {
    let cap = if max_levels <= 1 {
        1
    } else {
        max_levels
    };
    let avail = levels_available(r, c);
    if cap <= avail {
        cap
    } else {
        avail
    }
}

/// `dst` is `src` halved with the rounded-down mean of each 2x2 block.
pub open spec fn is_half_mean(src: Matrix<u8>, dst: Matrix<u8>) -> bool {
    &&& src.halvable()
    &&& dst.wf()
    &&& dst.nrows() == src.nrows() / 2
    &&& dst.ncols() == src.ncols() / 2
    &&& forall|i: int, j: int|
        0 <= i < dst.nrows() && 0 <= j < dst.ncols() ==> #[trigger] dst.entry(i, j) == mean4(
            src.entry(2 * i, 2 * j),
            src.entry(2 * i + 1, 2 * j),
            src.entry(2 * i, 2 * j + 1),
            src.entry(2 * i + 1, 2 * j + 1),
        )
}

/// `g` holds the scaled squared gradient norm of each 2x2 block of `src`.
pub open spec fn is_squared_norm_of(src: Matrix<u8>, g: Matrix<u16>) -> bool {
    &&& g.wf()
    &&& g.nrows() == src.nrows() / 2
    &&& g.ncols() == src.ncols() / 2
    &&& forall|i: int, j: int|
        0 <= i < g.nrows() && 0 <= j < g.ncols() ==> #[trigger] g.entry(i, j)
            == gradient::bloc_squared_norm_spec(
            src.entry(2 * i, 2 * j),
            src.entry(2 * i + 1, 2 * j),
            src.entry(2 * i, 2 * j + 1),
            src.entry(2 * i + 1, 2 * j + 1),
        )
}

/// `g` holds the centered gradient (horizontal when `horizontal` is true,
/// vertical otherwise) of each 2x2 block of `src`.
pub open spec fn is_gradient_of(src: Matrix<u8>, g: Matrix<i16>, horizontal: bool) -> bool {
    &&& g.wf()
    &&& g.nrows() == src.nrows() / 2
    &&& g.ncols() == src.ncols() / 2
    &&& forall|i: int, j: int|
        0 <= i < g.nrows() && 0 <= j < g.ncols() ==> #[trigger] g.entry(i, j) == (if horizontal {
            gradient::bloc_x_spec(
                src.entry(2 * i, 2 * j),
                src.entry(2 * i + 1, 2 * j),
                src.entry(2 * i, 2 * j + 1),
                src.entry(2 * i + 1, 2 * j + 1),
            )
        } else {
            gradient::bloc_y_spec(
                src.entry(2 * i, 2 * j),
                src.entry(2 * i + 1, 2 * j),
                src.entry(2 * i, 2 * j + 1),
                src.entry(2 * i + 1, 2 * j + 1),
            )
        })
}

/// Halve the resolution of a matrix by applying a reduction to each 2x2
/// block.
///
/// Returns `None` when either dimension is below 2. A trailing odd row or
/// column is dropped. Block `(i, j)` of the result is the reduction of the
/// four source pixels `(2i, 2j)`, `(2i+1, 2j)`, `(2i, 2j+1)`, `(2i+1, 2j+1)`.
pub fn halve<T: Copy, U, F: Fn(T, T, T, T) -> U>(mat: &Matrix<T>, f: F) -> (res: Option<
    Matrix<U>,
>)
    requires
        mat.wf(),
        forall|a: T, b: T, c: T, d: T| #[trigger] call_requires(f, (a, b, c, d)),
    ensures
        match res {
            None => !mat.halvable(),
            Some(h) => {
                &&& mat.halvable()
                &&& h.wf()
                &&& h.nrows() == mat.nrows() / 2
                &&& h.ncols() == mat.ncols() / 2
                &&& forall|i: int, j: int|
                    0 <= i < h.nrows() && 0 <= j < h.ncols() ==> call_ensures(
                        f,
                        (
                            mat.entry(2 * i, 2 * j),
                            mat.entry(2 * i + 1, 2 * j),
                            mat.entry(2 * i, 2 * j + 1),
                            mat.entry(2 * i + 1, 2 * j + 1),
                        ),
                        #[trigger] h.entry(i, j),
                    )
            },
        },
{
    let half_r = mat.num_rows() / 2;
    let half_c = mat.num_cols() / 2;
    if half_r == 0 || half_c == 0 {
        return None;
    }
    let mut data: Vec<U> = Vec::new();
    let mut i: usize = 0;
    while i < half_r
        invariant
            mat.wf(),
            forall|a: T, b: T, c: T, d: T| #[trigger] call_requires(f, (a, b, c, d)),
            half_r == mat.nrows() / 2,
            half_c == mat.ncols() / 2,
            half_r > 0,
            half_c > 0,
            i <= half_r,
            data@.len() == i * half_c,
            forall|i2: int, j2: int|
                0 <= i2 < i && 0 <= j2 < half_c ==> call_ensures(
                    f,
                    (
                        mat.entry(2 * i2, 2 * j2),
                        mat.entry(2 * i2 + 1, 2 * j2),
                        mat.entry(2 * i2, 2 * j2 + 1),
                        mat.entry(2 * i2 + 1, 2 * j2 + 1),
                    ),
                    #[trigger] data@[i2 * half_c + j2],
                ),
        decreases half_r - i,
    {
        let mut j: usize = 0;
        while j < half_c
            invariant
                mat.wf(),
                forall|a: T, b: T, c: T, d: T| #[trigger] call_requires(f, (a, b, c, d)),
                half_r == mat.nrows() / 2,
                half_c == mat.ncols() / 2,
                half_r > 0,
                half_c > 0,
                i < half_r,
                j <= half_c,
                data@.len() == i * half_c + j,
                forall|i2: int, j2: int|
                    0 <= i2 < half_r && 0 <= j2 < half_c && (i2 < i || (i2 == i && j2 < j))
                        ==> call_ensures(
                        f,
                        (
                            mat.entry(2 * i2, 2 * j2),
                            mat.entry(2 * i2 + 1, 2 * j2),
                            mat.entry(2 * i2, 2 * j2 + 1),
                            mat.entry(2 * i2 + 1, 2 * j2 + 1),
                        ),
                        #[trigger] data@[i2 * half_c + j2],
                    ),
            decreases half_c - j,
        {
            proof {
                lemma_row_major_index(half_r as int, half_c as int, i as int, j as int);
            }
            let a = mat.get(2 * i, 2 * j);
            let b = mat.get(2 * i + 1, 2 * j);
            let c = mat.get(2 * i, 2 * j + 1);
            let d = mat.get(2 * i + 1, 2 * j + 1);
            let v = f(a, b, c, d);
            data.push(v);
            j = j + 1;
            proof {
                assert forall|i2: int, j2: int|
                    0 <= i2 < half_r && 0 <= j2 < half_c && (i2 < i || (i2 == i && j2 < j))
                        implies call_ensures(
                    f,
                    (
                        mat.entry(2 * i2, 2 * j2),
                        mat.entry(2 * i2 + 1, 2 * j2),
                        mat.entry(2 * i2, 2 * j2 + 1),
                        mat.entry(2 * i2 + 1, 2 * j2 + 1),
                    ),
                    #[trigger] data@[i2 * half_c + j2],
                ) by {
                    if i2 < i || j2 < j - 1 {
                        lemma_row_major_order(half_c as int, i2, j2, i as int, j - 1);
                    }
                }
            }
        }
        i = i + 1;
        proof {
            assert(i * half_c == (i - 1) * half_c + half_c) by (nonlinear_arith);
        }
    }
    proof {
        lemma_half_bounds(mat.nrows(), mat.ncols());
    }
    Some(Matrix { rows: half_r, cols: half_c, data })
}

/// A halved dimension of a halvable matrix is positive and at most half the
/// original, so all block corners stay inside the source.
proof fn lemma_half_bounds(r: int, c: int)
    requires
        r >= 0,
        c >= 0,
    ensures
        2 * (r / 2) <= r,
        2 * (c / 2) <= c,
{
}

/// Recursively apply a reduction step to a matrix until it signals no further
/// result or the maximum pyramid length is reached.
///
/// The first level is `init` applied to the input; each following level is
/// `f` applied to its predecessor. The result always holds at least one
/// level, so `max_length == 0` acts as `max_length == 1`. When the pyramid
/// stops short of the cap, `f` returned no result on its last level.
pub fn limited_sequence<T, U, I: Fn(Matrix<T>) -> Matrix<U>, F: Fn(&Matrix<U>) -> Option<
    Matrix<U>,
>>(max_length: usize, mat: Matrix<T>, init: I, f: F) -> (seq: Vec<Matrix<U>>)
    requires
        call_requires(init, (mat,)),
        forall|m: Matrix<U>| (#[trigger] m.wf()) ==> call_requires(f, (&m,)),
        forall|out: Matrix<U>| call_ensures(init, (mat,), out) ==> (#[trigger] out.wf()),
        forall|m: Matrix<U>, out: Matrix<U>|
            #[trigger] call_ensures(f, (&m,), Some(out)) ==> out.wf(),
    ensures
        1 <= seq@.len(),
        seq@.len() <= (if max_length <= 1 {
            1int
        } else {
            max_length as int
        }),
        call_ensures(init, (mat,), seq@[0]),
        forall|k: int| 0 <= k < seq@.len() ==> (#[trigger] seq@[k]).wf(),
        forall|k: int|
            0 <= k < seq@.len() - 1 ==> call_ensures(f, (&seq@[k],), Some(#[trigger] seq@[k + 1])),
        seq@.len() < (if max_length <= 1 {
            1int
        } else {
            max_length as int
        }) ==> call_ensures(f, (&seq@[seq@.len() - 1],), None::<Matrix<U>>),
{
    let max_len: usize = if max_length < 1 {
        1
    } else {
        max_length
    };
    let mut seq: Vec<Matrix<U>> = Vec::new();
    let mut current = init(mat);
    let mut done = false;
    while !done && seq.len() + 1 < max_len
        invariant
            max_len >= 1,
            max_len == (if max_length <= 1 {
                1int
            } else {
                max_length as int
            }),
            seq@.len() + 1 <= max_len,
            forall|m: Matrix<U>| (#[trigger] m.wf()) ==> call_requires(f, (&m,)),
            forall|m: Matrix<U>, out: Matrix<U>|
                #[trigger] call_ensures(f, (&m,), Some(out)) ==> out.wf(),
            current.wf(),
            call_ensures(init, (mat,), if seq@.len() == 0 {
                current
            } else {
                seq@[0]
            }),
            forall|k: int| 0 <= k < seq@.len() ==> (#[trigger] seq@[k]).wf(),
            forall|k: int|
                0 <= k < seq@.len() - 1 ==> call_ensures(
                    f,
                    (&seq@[k],),
                    Some(#[trigger] seq@[k + 1]),
                ),
            seq@.len() > 0 ==> call_ensures(f, (&seq@[seq@.len() - 1],), Some(current)),
            done ==> call_ensures(f, (&current,), None::<Matrix<U>>),
        decreases max_len - seq@.len() + (if done {
            0int
        } else {
            1int
        }),
    {
        match f(&current) {
            Some(m) => {
                seq.push(current);
                current = m;
            },
            None => {
                done = true;
            },
        }
    }
    seq.push(current);
    seq
}

/// Recursively apply a reduction step to a matrix until it signals no further
/// result.
///
/// The first level is `init` applied to the input; each following level is
/// `f` applied to its predecessor. Each step must strictly shrink the row
/// count, which every halving step does; this is what bounds the recursion.
pub fn sequence<T, U, I: Fn(Matrix<T>) -> Matrix<U>, F: Fn(&Matrix<U>) -> Option<Matrix<U>>>(
    mat: Matrix<T>,
    init: I,
    f: F,
) -> (seq: Vec<Matrix<U>>)
    requires
        call_requires(init, (mat,)),
        forall|m: Matrix<U>| (#[trigger] m.wf()) ==> call_requires(f, (&m,)),
        forall|out: Matrix<U>| call_ensures(init, (mat,), out) ==> (#[trigger] out.wf()),
        forall|m: Matrix<U>, out: Matrix<U>|
            #[trigger] call_ensures(f, (&m,), Some(out)) ==> out.wf() && out.nrows() < m.nrows(),
    ensures
        1 <= seq@.len(),
        call_ensures(init, (mat,), seq@[0]),
        forall|k: int| 0 <= k < seq@.len() ==> (#[trigger] seq@[k]).wf(),
        forall|k: int|
            0 <= k < seq@.len() - 1 ==> call_ensures(f, (&seq@[k],), Some(#[trigger] seq@[k + 1])),
        call_ensures(f, (&seq@[seq@.len() - 1],), None::<Matrix<U>>),
{
    let mut seq: Vec<Matrix<U>> = Vec::new();
    let mut current = init(mat);
    let mut done = false;
    while !done
        invariant
            forall|m: Matrix<U>| (#[trigger] m.wf()) ==> call_requires(f, (&m,)),
            forall|m: Matrix<U>, out: Matrix<U>|
                #[trigger] call_ensures(f, (&m,), Some(out)) ==> out.wf() && out.nrows()
                    < m.nrows(),
            current.wf(),
            call_ensures(init, (mat,), if seq@.len() == 0 {
                current
            } else {
                seq@[0]
            }),
            forall|k: int| 0 <= k < seq@.len() ==> (#[trigger] seq@[k]).wf(),
            forall|k: int|
                0 <= k < seq@.len() - 1 ==> call_ensures(
                    f,
                    (&seq@[k],),
                    Some(#[trigger] seq@[k + 1]),
                ),
            seq@.len() > 0 ==> call_ensures(f, (&seq@[seq@.len() - 1],), Some(current)),
            done ==> call_ensures(f, (&current,), None::<Matrix<U>>),
        decreases current.nrows() + (if done {
            0int
        } else {
            1int
        }),
    {
        match f(&current) {
            Some(m) => {
                seq.push(current);
                current = m;
            },
            None => {
                done = true;
            },
        }
    }
    seq.push(current);
    seq
}

/// Build a pyramid of intensity images, each level half the resolution of
/// the one before, computed as the rounded-down mean of each 2x2 block.
///
/// The first level is the input itself. The pyramid stops at `max_levels`
/// levels (`max_levels == 0` acts as 1), or earlier as soon as a level can no
/// longer be halved.
pub fn mean_pyramid(max_levels: usize, mat: Matrix<u8>) -> (pyr: Vec<Matrix<u8>>)
    requires
        mat.wf(),
    ensures
        pyr@.len() == pyramid_len(max_levels as int, mat.nrows(), mat.ncols()),
        pyr@[0] == mat,
        forall|k: int| 0 <= k < pyr@.len() ==> (#[trigger] pyr@[k]).wf(),
        forall|k: int| 0 <= k < pyr@.len() - 1 ==> is_half_mean(pyr@[k], #[trigger] pyr@[k + 1]),
{
    let id = |m: Matrix<u8>| -> (r: Matrix<u8>)
        ensures
            r == m,
        { m };
    let step = |m: &Matrix<u8>| -> (r: Option<Matrix<u8>>)
        requires
            m.wf(),
        ensures
            (match r {
                None => !m.halvable(),
                Some(h) => is_half_mean(*m, h),
            }),
        {
            let quad_mean = |a: u8, b: u8, c: u8, d: u8| -> (r: u8)
                ensures
                    r == mean4(a, b, c, d),
                {
                    let sum: u16 = a as u16 + b as u16 + c as u16 + d as u16;
                    (sum / 4) as u8
                };
            halve(m, quad_mean)
        };
    let pyr = limited_sequence(max_levels, mat, id, step);
    proof {
        let s = pyr@;
        assert(s[0] == mat);
        assert forall|k: int| 0 <= k < s.len() - 1 implies halving_step(s[k], #[trigger] s[k + 1])
        by {
            assert(is_half_mean(s[k], s[k + 1]));
        }
        lemma_halving_chain_avail(s, s.len() - 1);
        lemma_avail_ge_one(s[s.len() - 1].nrows(), s[s.len() - 1].ncols());
        let cap = if max_levels <= 1 {
            1int
        } else {
            max_levels as int
        };
        if s.len() < cap {
            assert(call_ensures(step, (&s[s.len() - 1],), None::<Matrix<u8>>));
            assert(!s[s.len() - 1].halvable());
            assert(levels_available(s[s.len() - 1].nrows(), s[s.len() - 1].ncols()) == 1);
        }
    }
    pyr
}

/// The mean pyramid is as long as requested whenever the input resolution
/// supports that many halvings, and otherwise stops exactly where a level
/// falls below 2x2: together with the length clause of `mean_pyramid`, a
/// large enough input yields exactly `max_levels` levels and a small one
/// yields exactly `levels_available` of them.
pub proof fn lemma_pyramid_len_cases(max_levels: int, r: int, c: int)
    requires
        max_levels >= 1,
    ensures
        levels_available(r, c) >= max_levels ==> pyramid_len(max_levels, r, c) == max_levels,
        levels_available(r, c) < max_levels ==> pyramid_len(max_levels, r, c) == levels_available(
            r,
            c,
        ),
{
}

/// Levels available never falls below one: the original matrix is always a
/// level.
pub proof fn lemma_avail_ge_one(r: int, c: int)
    ensures
        levels_available(r, c) >= 1,
    decreases r,
{
    if !(r <= 1 || c <= 1) {
        lemma_avail_ge_one(r / 2, c / 2);
    }
}

/// One halving step: the source could be halved and the destination has the
/// halved shape, whatever the elements.
pub open spec fn halving_step<T, U>(src: Matrix<T>, dst: Matrix<U>) -> bool {
    &&& src.halvable()
    &&& dst.nrows() == src.nrows() / 2
    &&& dst.ncols() == src.ncols() / 2
}

/// Along a chain of halvings, each level has exactly one fewer level
/// available than its predecessor.
pub proof fn lemma_halving_chain_avail<T>(s: Seq<Matrix<T>>, k: int)
    requires
        0 <= k < s.len(),
        forall|j: int| 0 <= j < s.len() - 1 ==> halving_step(s[j], #[trigger] s[j + 1]),
    ensures
        levels_available(s[k].nrows(), s[k].ncols()) == levels_available(
            s[0].nrows(),
            s[0].ncols(),
        ) - k,
    decreases k,
{
    if k > 0 {
        lemma_halving_chain_avail(s, k - 1);
        assert(halving_step(s[k - 1], s[(k - 1) + 1]));
        assert(s[k - 1].nrows() >= 2 && s[k - 1].ncols() >= 2);
    }
}

/// Compute the scaled squared gradient norm at each resolution from the image
/// at the next higher resolution.
///
/// Gradients need a 2x2 neighborhood, so the gradient pyramid is one level
/// shorter than its source pyramid; every level but the last must be
/// halvable, as every level of a mean pyramid that is followed by another
/// one is.
pub fn gradients_squared_norm(multires_mat: &Vec<Matrix<u8>>) -> (grads: Vec<Matrix<u16>>)
    requires
        multires_mat@.len() >= 1,
        forall|k: int| 0 <= k < multires_mat@.len() ==> (#[trigger] multires_mat@[k]).wf(),
        forall|k: int|
            0 <= k < multires_mat@.len() - 1 ==> (#[trigger] multires_mat@[k]).halvable(),
    ensures
        grads@.len() == multires_mat@.len() - 1,
        forall|k: int|
            0 <= k < grads@.len() ==> is_squared_norm_of(multires_mat@[k], #[trigger] grads@[k]),
{
    let nb_levels = multires_mat.len();
    let mut grads: Vec<Matrix<u16>> = Vec::new();
    let mut k: usize = 0;
    while k < nb_levels - 1
        invariant
            nb_levels == multires_mat@.len(),
            nb_levels >= 1,
            k <= nb_levels - 1,
            forall|k2: int| 0 <= k2 < multires_mat@.len() ==> (#[trigger] multires_mat@[k2]).wf(),
            forall|k2: int|
                0 <= k2 < multires_mat@.len() - 1 ==> (#[trigger] multires_mat@[k2]).halvable(),
            grads@.len() == k,
            forall|k2: int|
                0 <= k2 < k ==> is_squared_norm_of(multires_mat@[k2], #[trigger] grads@[k2]),
        decreases nb_levels - k,
    {
        let g = match halve(&multires_mat[k], gradient::bloc_squared_norm) {
            Some(g) => g,
            None => { vstd::pervasive::unreached() },
        };
        grads.push(g);
        k = k + 1;
    }
    grads
}

/// Compute the centered gradient pair (horizontal, vertical) at each
/// resolution from the image at the next higher resolution.
///
/// As with the squared-norm pyramid, the result is one level shorter than
/// its source.
pub fn gradients_xy(multires_mat: &Vec<Matrix<u8>>) -> (grads: Vec<(Matrix<i16>, Matrix<i16>)>)
    requires
        multires_mat@.len() >= 1,
        forall|k: int| 0 <= k < multires_mat@.len() ==> (#[trigger] multires_mat@[k]).wf(),
        forall|k: int|
            0 <= k < multires_mat@.len() - 1 ==> (#[trigger] multires_mat@[k]).halvable(),
    ensures
        grads@.len() == multires_mat@.len() - 1,
        forall|k: int|
            0 <= k < grads@.len() ==> is_gradient_of(multires_mat@[k], (#[trigger] grads@[k]).0, true)
                && is_gradient_of(multires_mat@[k], grads@[k].1, false),
{
    let nb_levels = multires_mat.len();
    let mut grads: Vec<(Matrix<i16>, Matrix<i16>)> = Vec::new();
    let mut k: usize = 0;
    while k < nb_levels - 1
        invariant
            nb_levels == multires_mat@.len(),
            nb_levels >= 1,
            k <= nb_levels - 1,
            forall|k2: int| 0 <= k2 < multires_mat@.len() ==> (#[trigger] multires_mat@[k2]).wf(),
            forall|k2: int|
                0 <= k2 < multires_mat@.len() - 1 ==> (#[trigger] multires_mat@[k2]).halvable(),
            grads@.len() == k,
            forall|k2: int|
                0 <= k2 < k ==> is_gradient_of(multires_mat@[k2], (#[trigger] grads@[k2]).0, true)
                    && is_gradient_of(multires_mat@[k2], grads@[k2].1, false),
        decreases nb_levels - k,
    {
        let gx = match halve(&multires_mat[k], gradient::bloc_x) {
            Some(g) => g,
            None => { vstd::pervasive::unreached() },
        };
        let gy = match halve(&multires_mat[k], gradient::bloc_y) {
            Some(g) => g,
            None => { vstd::pervasive::unreached() },
        };
        grads.push((gx, gy));
        k = k + 1;
    }
    grads
}

} // verus!
