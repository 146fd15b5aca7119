use vstd::prelude::*;

verus! {

/// Number of fraction steps per whole unit: every scalar quantity in this
/// crate is stored as a signed count of steps of size `1 / SCALE`.
pub const SCALE: i64 = 1048576;

/// Saturation bound for stored scalars: arithmetic never leaves the range
/// `[-FX_MAX, FX_MAX]`.
pub const FX_MAX: i64 = 2305843009213693952;

/// Saturate a mathematical integer into the representable scalar range.
pub open spec fn cl(x: int) -> int {
    if x > FX_MAX {
        FX_MAX as int
    } else if x < -FX_MAX {
        -(FX_MAX as int)
    } else {
        x
    }
}

/// Division truncated toward zero, the rounding used by all scalar
/// operations here; meaningful only for a nonzero divisor.
pub open spec fn tdiv(n: int, d: int) -> int
    recommends
        d != 0,
{
    let nn = if d < 0 { -n } else { n };
    let dd = if d < 0 { -d } else { d };
    if nn >= 0 {
        nn / dd
    } else {
        -((-nn) / dd)
    }
}

/// The saturating fixed-point product of two scalars.
pub open spec fn fmul(a: int, b: int) -> int {
    cl(tdiv(a * b, SCALE as int))
}

/// The saturating fixed-point quotient of two scalars; meaningful only for
/// a nonzero divisor.
pub open spec fn fdiv(a: int, b: int) -> int
    recommends
        b != 0,
{
    cl(tdiv(a * (SCALE as int), b))
}

/// The saturating sum of two scalars.
pub open spec fn fadd(a: int, b: int) -> int {
    cl(a + b)
}

/// The saturating difference of two scalars.
pub open spec fn fsub(a: int, b: int) -> int {
    cl(a - b)
}

/// The largest integer whose square does not exceed `n` (0 for negative `n`).
pub open spec fn sqrt_floor(n: int) -> int
    decreases n,
{
    if n <= 0 {
        0
    } else {
        let s = sqrt_floor(n - 1);
        if (s + 1) * (s + 1) <= n {
            s + 1
        } else {
            s
        }
    }
}

pub proof fn lemma_sqrt_floor_bounds(n: int)
    requires
        n >= 0,
    ensures
        0 <= sqrt_floor(n),
        sqrt_floor(n) * sqrt_floor(n) <= n,
        n < (sqrt_floor(n) + 1) * (sqrt_floor(n) + 1),
    decreases n,
{
    if n == 0 {
    } else {
        lemma_sqrt_floor_bounds(n - 1);
        let s = sqrt_floor(n - 1);
        if (s + 1) * (s + 1) <= n {
            assert((s + 2) * (s + 2) > n) by (nonlinear_arith)
                requires
                    s >= 0,
                    n - 1 < (s + 1) * (s + 1),
                    (s + 1) * (s + 1) <= n,
            ;
        }
    }
}

pub proof fn lemma_sqrt_floor_unique(n: int, r: int)
    requires
        n >= 0,
        r >= 0,
        r * r <= n,
        n < (r + 1) * (r + 1),
    ensures
        r == sqrt_floor(n),
{
    lemma_sqrt_floor_bounds(n);
    let s = sqrt_floor(n);
    if r < s {
        assert((r + 1) * (r + 1) <= s * s) by (nonlinear_arith)
            requires
                0 <= r,
                r < s,
        ;
    }
    if s < r {
        assert((s + 1) * (s + 1) <= r * r) by (nonlinear_arith)
            requires
                0 <= s,
                s < r,
        ;
    }
}

/// Multiplying a truncated quotient back by the divisor lands within one
/// divisor of the numerator, on the side of zero.
pub proof fn lemma_tdiv_mul_close(n: int, d: int)
    requires
        d > 0,
    ensures
        n - d < tdiv(n, d) * d,
        tdiv(n, d) * d < n + d,
        n >= 0 ==> tdiv(n, d) * d <= n,
        n >= 0 ==> tdiv(n, d) >= 0,
{
    if n >= 0 {
        assert((n / d) * d <= n && n - d < (n / d) * d && n / d >= 0) by (nonlinear_arith)
            requires
                n >= 0,
                d > 0,
        ;
    } else {
        let m = -n;
        assert((m / d) * d <= m && m - d < (m / d) * d) by (nonlinear_arith)
            requires
                m >= 0,
                d > 0,
        ;
        assert(tdiv(n, d) == -(m / d));
        assert((-(m / d)) * d == -((m / d) * d)) by (nonlinear_arith);
    }
}

/// A truncated quotient is bounded by any bound on the numerator in units
/// of the divisor.
pub proof fn lemma_tdiv_bounded(n: int, d: int, bound: int)
    requires
        d > 0,
        bound >= 0,
        -(bound * d) <= n <= bound * d,
    ensures
        -bound <= tdiv(n, d) <= bound,
{
    lemma_tdiv_mul_close(n, d);
    let q = tdiv(n, d);
    if q > bound {
        assert(q * d >= (bound + 1) * d) by (nonlinear_arith)
            requires
                q >= bound + 1,
                d > 0,
        ;
        assert((bound + 1) * d >= bound * d + d) by (nonlinear_arith)
            requires
                d > 0,
        ;
    }
    if q < -bound {
        assert(q * d <= (-bound - 1) * d) by (nonlinear_arith)
            requires
                q <= -bound - 1,
                d > 0,
        ;
        assert((-bound - 1) * d <= -(bound * d) - d) by (nonlinear_arith)
            requires
                d > 0,
        ;
    }
}

/// A fixed-point product with a factor in `[0, 1]` does not exceed the
/// other, nonnegative factor.
pub proof fn lemma_fmul_le_factor(c: int, t: int)
    requires
        0 <= c <= SCALE,
        0 <= t <= FX_MAX,
    ensures
        0 <= fmul(c, t) <= t,
{
    let p = c * t;
    assert(0 <= c * t <= SCALE * t) by (nonlinear_arith)
        requires
            0 <= c <= SCALE,
            0 <= t,
    ;
    lemma_tdiv_mul_close(p, SCALE as int);
    let q = tdiv(p, SCALE as int);
    if q > t {
        assert(q * SCALE > t * SCALE) by (nonlinear_arith)
            requires
                q > t,
                SCALE == 1048576,
        ;
        assert(t * SCALE >= SCALE * t) by (nonlinear_arith);
    }
}

/// Saturate a wide intermediate result back into a stored scalar.
pub fn clamp_wide(q: i128) -> (r: i64)
    ensures
        r == cl(q as int),
{
    if q > FX_MAX as i128 {
        FX_MAX
    } else if q < -(FX_MAX as i128) {
        -FX_MAX
    } else {
        q as i64
    }
}

/// Convert a whole number to a scalar, saturating.
pub fn from_whole(n: i64) -> (r: i64)
    ensures
        r == cl(n * SCALE),
{
    proof {
        assert(-170141183460469231731687303715884105728 < (n as int) * (SCALE as int)
            < 170141183460469231731687303715884105727) by (nonlinear_arith)
            requires
                -9223372036854775808 <= n <= 9223372036854775807,
        ;
    }
    clamp_wide((n as i128) * (SCALE as i128))
}

/// The whole part of a scalar, truncated toward zero.
pub fn to_whole(a: i64) -> (r: i64)
    ensures
        r == tdiv(a as int, SCALE as int),
{
    a / SCALE
}

/// Saturating scalar addition.
pub fn fx_add(a: i64, b: i64) -> (r: i64)
    ensures
        r == fadd(a as int, b as int),
{
    clamp_wide((a as i128) + (b as i128))
}

/// Saturating scalar subtraction.
pub fn fx_sub(a: i64, b: i64) -> (r: i64)
    ensures
        r == fsub(a as int, b as int),
{
    clamp_wide((a as i128) - (b as i128))
}

/// Saturating scalar negation.
pub fn fx_neg(a: i64) -> (r: i64)
    ensures
        r == cl(-(a as int)),
{
    clamp_wide(-(a as i128))
}

/// Saturating scalar multiplication.
pub fn fx_mul(a: i64, b: i64) -> (r: i64)
    ensures
        r == fmul(a as int, b as int),
{
    proof {
        assert(-170141183460469231731687303715884105728 < (a as int) * (b as int)
            < 170141183460469231731687303715884105727) by (nonlinear_arith)
            requires
                -9223372036854775808 <= a <= 9223372036854775807,
                -9223372036854775808 <= b <= 9223372036854775807,
        ;
    }
    let p: i128 = (a as i128) * (b as i128);
    clamp_wide(p / (SCALE as i128))
}

/// Saturating scalar division.
pub fn fx_div(a: i64, b: i64) -> (r: i64)
    requires
        b != 0,
    ensures
        r == fdiv(a as int, b as int),
{
    proof {
        assert(-170141183460469231731687303715884105728 < (a as int) * (SCALE as int)
            < 170141183460469231731687303715884105727) by (nonlinear_arith)
            requires
                -9223372036854775808 <= a <= 9223372036854775807,
        ;
    }
    let n: i128 = (a as i128) * (SCALE as i128);
    let q: i128 = if b > 0 {
        n / (b as i128)
    } else {
        (-n) / (-(b as i128))
    };
    clamp_wide(q)
}

/// Absolute value of a scalar, saturating.
pub fn fx_abs(a: i64) -> (r: i64)
    ensures
        r == cl(if a < 0 { -(a as int) } else { a as int }),
{
    if a < 0 {
        fx_neg(a)
    } else {
        if a > FX_MAX {
            FX_MAX
        } else {
            a
        }
    }
}

/// The largest integer whose square does not exceed `n`.
pub fn isqrt(n: u128) -> (r: u128)
    requires
        n < 19342813113834066795298816,
    ensures
        r == sqrt_floor(n as int),
{
    let mut lo: u128 = 0;
    let mut hi: u128 = 4398046511104;
    proof {
        assert(19342813113834066795298816 == 4398046511104i128 * 4398046511104i128)
            by (nonlinear_arith);
    }
    while lo < hi
        invariant
            lo <= hi <= 4398046511104,
            lo * lo <= n,
            n < (hi + 1) * (hi + 1),
        decreases hi - lo,
    {
        let mid: u128 = (lo + hi + 1) / 2;
        proof {
            assert(lo < mid <= hi);
            assert(mid * mid < 170141183460469231731687303715884105727) by (nonlinear_arith)
                requires
                    0 <= mid <= 4398046511104,
            ;
        }
        if mid * mid <= n {
            lo = mid;
        } else {
            proof {
                assert(n < mid * mid);
            }
            hi = mid - 1;
        }
    }
    proof {
        lemma_sqrt_floor_unique(n as int, lo as int);
    }
    lo
}

/// The fixed-point square root of a nonnegative scalar: the stored result
/// is the integer square root of `a * SCALE`.
pub fn fx_sqrt(a: i64) -> (r: i64)
    requires
        a >= 0,
    ensures
        r == sqrt_floor(a * SCALE),
        r >= 0,
{
    proof {
        assert((a as int) * (SCALE as int) < 19342813113834066795298816) by (nonlinear_arith)
            requires
                0 <= a <= 9223372036854775807,
                SCALE == 1048576,
        ;
        assert((a as int) * (SCALE as int) >= 0) by (nonlinear_arith)
            requires
                a >= 0,
                SCALE == 1048576,
        ;
    }
    let p: u128 = ((a as i128) * (SCALE as i128)) as u128;
    let r: u128 = isqrt(p);
    proof {
        lemma_sqrt_floor_bounds(p as int);
        if r as int >= 4398046511104 {
            assert(r as int * r as int >= 4398046511104i128 * 4398046511104i128)
                by (nonlinear_arith)
                requires
                    r as int >= 4398046511104,
            ;
            assert(4398046511104i128 * 4398046511104i128 == 19342813113834066795298816)
                by (nonlinear_arith);
        }
    }
    r as i64
}

} // verus!
