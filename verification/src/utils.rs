use vstd::prelude::*;

use crate::fixed::{fadd, fdiv, fmul, fsub, fx_add, fx_div, fx_mul, fx_sub, FX_MAX, SCALE};

verus! {

/// The circle constant at the crate's scale: `pi * SCALE`, rounded to nearest.
pub const FX_PI: i64 = 3294199;

/// `degrees * pi / 180`.
pub open spec fn deg2rad(degrees: int) -> int {
    fdiv(fmul(degrees, FX_PI as int), 180 * SCALE)
}

pub fn degrees_to_radiants(degrees: i64) -> (r: i64)
    ensures
        r == deg2rad(degrees as int),
{
    fx_div(fx_mul(degrees, FX_PI), 180 * SCALE)
}

/// The sine polynomial: an alternating Taylor sum through the eleventh
/// power, evaluated in saturating fixed point.  Accurate to a few fraction
/// steps on `[0, pi/2]`.
pub open spec fn sin_s(x: int) -> int {
    let x2 = fmul(x, x);
    let x3 = fmul(x2, x);
    let x5 = fmul(x3, x2);
    let x7 = fmul(x5, x2);
    let x9 = fmul(x7, x2);
    let x11 = fmul(x9, x2);
    fsub(
        fadd(
            fsub(fadd(fsub(x, fdiv(x3, 6 * SCALE)), fdiv(x5, 120 * SCALE)), fdiv(x7, 5040 * SCALE)),
            fdiv(x9, 362880 * SCALE),
        ),
        fdiv(x11, 39916800 * SCALE),
    )
}

/// The cosine polynomial: an alternating Taylor sum through the twelfth
/// power, evaluated in saturating fixed point.
pub open spec fn cos_s(x: int) -> int {
    let x2 = fmul(x, x);
    let x4 = fmul(x2, x2);
    let x6 = fmul(x4, x2);
    let x8 = fmul(x6, x2);
    let x10 = fmul(x8, x2);
    let x12 = fmul(x10, x2);
    fadd(
        fsub(
            fadd(
                fsub(
                    fadd(fsub(SCALE as int, fdiv(x2, 2 * SCALE)), fdiv(x4, 24 * SCALE)),
                    fdiv(x6, 720 * SCALE),
                ),
                fdiv(x8, 40320 * SCALE),
            ),
            fdiv(x10, 3628800 * SCALE),
        ),
        fdiv(x12, 479001600 * SCALE),
    )
}

/// The tangent as the quotient of the two polynomials, saturating where
/// the cosine polynomial vanishes.
pub open spec fn tan_s(x: int) -> int {
    if cos_s(x) == 0 {
        FX_MAX as int
    } else {
        fdiv(sin_s(x), cos_s(x))
    }
}

pub fn fx_sin(x: i64) -> (r: i64)
    ensures
        r == sin_s(x as int),
{
    let x2 = fx_mul(x, x);
    let x3 = fx_mul(x2, x);
    let x5 = fx_mul(x3, x2);
    let x7 = fx_mul(x5, x2);
    let x9 = fx_mul(x7, x2);
    let x11 = fx_mul(x9, x2);
    fx_sub(
        fx_add(
            fx_sub(
                fx_add(fx_sub(x, fx_div(x3, 6 * SCALE)), fx_div(x5, 120 * SCALE)),
                fx_div(x7, 5040 * SCALE),
            ),
            fx_div(x9, 362880 * SCALE),
        ),
        fx_div(x11, 39916800 * SCALE),
    )
}

pub fn fx_cos(x: i64) -> (r: i64)
    ensures
        r == cos_s(x as int),
{
    let x2 = fx_mul(x, x);
    let x4 = fx_mul(x2, x2);
    let x6 = fx_mul(x4, x2);
    let x8 = fx_mul(x6, x2);
    let x10 = fx_mul(x8, x2);
    let x12 = fx_mul(x10, x2);
    fx_add(
        fx_sub(
            fx_add(
                fx_sub(
                    fx_add(fx_sub(SCALE, fx_div(x2, 2 * SCALE)), fx_div(x4, 24 * SCALE)),
                    fx_div(x6, 720 * SCALE),
                ),
                fx_div(x8, 40320 * SCALE),
            ),
            fx_div(x10, 3628800 * SCALE),
        ),
        fx_div(x12, 479001600 * SCALE),
    )
}

pub fn fx_tan(x: i64) -> (r: i64)
    ensures
        r == tan_s(x as int),
{
    let c = fx_cos(x);
    if c == 0 {
        FX_MAX
    } else {
        fx_div(fx_sin(x), c)
    }
}

} // verus!
