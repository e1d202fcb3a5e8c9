//! Centered-difference gradients of a 2x2 intensity block.
//!
//! A block holds the four pixels `a = (2i, 2j)`, `b = (2i+1, 2j)`,
//! `c = (2i, 2j+1)` and `d = (2i+1, 2j+1)` of the finer image. The horizontal
//! gradient compares the right column `(c, d)` with the left column `(a, b)`,
//! the vertical gradient compares the bottom row `(b, d)` with the top row
//! `(a, c)`; both are halved, rounding toward zero.

use vstd::prelude::*;

verus! {

/// Half of `x`, rounded toward zero, as integer division on machine integers
/// computes it.
pub open spec fn half_toward_zero(x: int) -> int {
    if x >= 0 {
        x / 2
    } else {
        -((-x) / 2)
    }
}

/// Horizontal gradient of a 2x2 block: half the column difference.
pub open spec fn bloc_x_spec(a: u8, b: u8, c: u8, d: u8) -> int {
    half_toward_zero((c + d) - (a + b))
}

/// Vertical gradient of a 2x2 block: half the row difference.
pub open spec fn bloc_y_spec(a: u8, b: u8, c: u8, d: u8) -> int {
    half_toward_zero((b + d) - (a + c))
}

/// Scaled squared gradient norm of a 2x2 block. The halving keeps the largest
/// possible value (two full-range gradients) within 16 bits.
pub open spec fn bloc_squared_norm_spec(a: u8, b: u8, c: u8, d: u8) -> int {
    (bloc_x_spec(a, b, c, d) * bloc_x_spec(a, b, c, d) + bloc_y_spec(a, b, c, d) * bloc_y_spec(
        a,
        b,
        c,
        d,
    )) / 2
}

/// Half of a signed 16-bit value, rounded toward zero.
fn half_i32(x: i32) -> (r: i32)
    requires
        -65536 <= x <= 65536,
    ensures
        r == half_toward_zero(x as int),
{
    if x >= 0 {
        x / 2
    } else {
        -((-x) / 2)
    }
}

/// Horizontal centered gradient of a 2x2 block.
pub fn bloc_x(a: u8, b: u8, c: u8, d: u8) -> (r: i16)
    ensures
        r == bloc_x_spec(a, b, c, d),
        -255 <= r <= 255,
{
    let diff: i32 = (c as i32 + d as i32) - (a as i32 + b as i32);
    half_i32(diff) as i16
}

/// Vertical centered gradient of a 2x2 block.
pub fn bloc_y(a: u8, b: u8, c: u8, d: u8) -> (r: i16)
    ensures
        r == bloc_y_spec(a, b, c, d),
        -255 <= r <= 255,
{
    let diff: i32 = (b as i32 + d as i32) - (a as i32 + c as i32);
    half_i32(diff) as i16
}

/// Scaled squared gradient norm of a 2x2 block.
pub fn bloc_squared_norm(a: u8, b: u8, c: u8, d: u8) -> (r: u16)
    ensures
        r == bloc_squared_norm_spec(a, b, c, d),
{
    let gx: i32 = bloc_x(a, b, c, d) as i32;
    let gy: i32 = bloc_y(a, b, c, d) as i32;
    assert(gx * gx + gy * gy <= 130050) by (nonlinear_arith)
        requires
            -255 <= gx <= 255,
            -255 <= gy <= 255,
    ;
    assert(gx * gx >= 0 && gy * gy >= 0) by (nonlinear_arith);
    ((gx * gx + gy * gy) / 2) as u16
}

} // verus!
