use vstd::prelude::*;

use crate::fixed::{cl, fadd, fdiv, fmul, fsub, fx_abs, fx_add, fx_div, fx_mul, fx_neg, fx_sqrt,
    sqrt_floor, tdiv, FX_MAX, SCALE};
use crate::rng::RandomSource;

verus! {

/// The mathematical value of a vector: one unbounded integer numerator per
/// component, each denoting `numerator / SCALE`.
pub struct Vec3i {
    pub x: int,
    pub y: int,
    pub z: int,
}

/// A three-component fixed-point vector, also used for points and colors.
#[derive(Clone, Copy, Debug, PartialEq, Eq, Structural)]
pub struct Vec3 {
    x: i64,
    y: i64,
    z: i64,
}

pub type Point3 = Vec3;

impl View for Vec3 {
    type V = Vec3i;

    closed spec fn view(&self) -> Vec3i {
        Vec3i { x: self.x as int, y: self.y as int, z: self.z as int }
    }
}

/// All components lie in the saturation range of stored scalars.
pub open spec fn bounded(v: Vec3i) -> bool {
    &&& -FX_MAX <= v.x <= FX_MAX
    &&& -FX_MAX <= v.y <= FX_MAX
    &&& -FX_MAX <= v.z <= FX_MAX
}

/// Build a vector value, saturating each component.
pub open spec fn v3(x: int, y: int, z: int) -> Vec3i {
    Vec3i { x: cl(x), y: cl(y), z: cl(z) }
}

pub open spec fn zero_v() -> Vec3i {
    Vec3i { x: 0, y: 0, z: 0 }
}

pub open spec fn add_v(u: Vec3i, v: Vec3i) -> Vec3i {
    v3(u.x + v.x, u.y + v.y, u.z + v.z)
}

pub open spec fn sub_v(u: Vec3i, v: Vec3i) -> Vec3i {
    v3(u.x - v.x, u.y - v.y, u.z - v.z)
}

pub open spec fn neg_v(v: Vec3i) -> Vec3i {
    v3(-v.x, -v.y, -v.z)
}

/// Component-wise product, used for color attenuation.
pub open spec fn mul_v(u: Vec3i, v: Vec3i) -> Vec3i {
    Vec3i { x: fmul(u.x, v.x), y: fmul(u.y, v.y), z: fmul(u.z, v.z) }
}

/// Product with a scalar.
pub open spec fn scale_v(v: Vec3i, t: int) -> Vec3i {
    Vec3i { x: fmul(v.x, t), y: fmul(v.y, t), z: fmul(v.z, t) }
}

/// Quotient by a scalar; meaningful only for a nonzero divisor.
pub open spec fn div_v(v: Vec3i, t: int) -> Vec3i
    recommends
        t != 0,
{
    Vec3i { x: fdiv(v.x, t), y: fdiv(v.y, t), z: fdiv(v.z, t) }
}

/// The exact sum of component products, at twice the usual scale: no
/// rounding has been applied yet.
pub open spec fn dot_wide(u: Vec3i, v: Vec3i) -> int {
    u.x * v.x + u.y * v.y + u.z * v.z
}

/// The dot product as a stored scalar: the wide sum brought back to scale
/// with a single truncating division.
pub open spec fn dot_v(u: Vec3i, v: Vec3i) -> int {
    cl(tdiv(dot_wide(u, v), SCALE as int))
}

pub open spec fn len_sq_v(v: Vec3i) -> int {
    dot_v(v, v)
}

pub open spec fn len_v(v: Vec3i) -> int {
    sqrt_floor(len_sq_v(v) * SCALE)
}

/// Each component of the cross product is rounded once from the wide
/// products.
pub open spec fn cross_v(u: Vec3i, v: Vec3i) -> Vec3i {
    Vec3i {
        x: cl(tdiv(u.y * v.z - u.z * v.y, SCALE as int)),
        y: cl(tdiv(u.z * v.x - u.x * v.z, SCALE as int)),
        z: cl(tdiv(u.x * v.y - u.y * v.x, SCALE as int)),
    }
}

/// All components lie in `[0, 1]`: a color that neither under- nor
/// overshoots the displayable range.
pub open spec fn color_in_range(c: Vec3i) -> bool {
    &&& 0 <= c.x <= SCALE
    &&& 0 <= c.y <= SCALE
    &&& 0 <= c.z <= SCALE
}

pub open spec fn near_zero_v(v: Vec3i) -> bool {
    v.x == 0 && v.y == 0 && v.z == 0
}

pub open spec fn unit_v(v: Vec3i) -> Vec3i
    recommends
        len_v(v) != 0,
{
    div_v(v, len_v(v))
}

/// Mirror `v` about the plane with normal `n`: `v - 2*dot(v,n)*n`.
pub open spec fn reflect_v(v: Vec3i, n: Vec3i) -> Vec3i {
    sub_v(v, scale_v(n, cl(2 * dot_v(v, n))))
}

/// The incidence cosine used by refraction: `dot(-uv, n)` capped at one.
pub open spec fn refract_cos(uv: Vec3i, n: Vec3i) -> int {
    let d = dot_v(neg_v(uv), n);
    if d > SCALE {
        SCALE as int
    } else {
        d
    }
}

/// Snell decomposition of the refracted direction for incident unit
/// direction `uv`, unit normal `n` and index ratio `ratio`.
pub open spec fn refract_v(uv: Vec3i, n: Vec3i, ratio: int) -> Vec3i {
    let r_out_perp = scale_v(add_v(uv, scale_v(n, refract_cos(uv, n))), ratio);
    let k = cl(SCALE - len_sq_v(r_out_perp));
    let abs_k = if k < 0 { -k } else { k };
    let r_out_parallel = scale_v(n, cl(-sqrt_floor(abs_k * SCALE)));
    add_v(r_out_perp, r_out_parallel)
}

impl Vec3 {
    #[verifier::type_invariant]
    spec fn wf(self) -> bool {
        bounded(self@)
    }

    /// Build a vector from raw scalar components, saturating each.
    pub fn new(x: i64, y: i64, z: i64) -> (r: Self)
        ensures
            r@ == v3(x as int, y as int, z as int),
    {
        Vec3 { x: clamp_component(x), y: clamp_component(y), z: clamp_component(z) }
    }

    pub fn x(&self) -> (r: i64)
        ensures
            r == self@.x,
    {
        self.x
    }

    pub fn y(&self) -> (r: i64)
        ensures
            r == self@.y,
    {
        self.y
    }

    pub fn z(&self) -> (r: i64)
        ensures
            r == self@.z,
    {
        self.z
    }

    pub fn add(self, rhs: Vec3) -> (r: Vec3)
        ensures
            r@ == add_v(self@, rhs@),
    {
        Vec3 { x: fx_add(self.x, rhs.x), y: fx_add(self.y, rhs.y), z: fx_add(self.z, rhs.z) }
    }

    pub fn sub(self, rhs: Vec3) -> (r: Vec3)
        ensures
            r@ == sub_v(self@, rhs@),
    {
        Vec3 {
            x: crate::fixed::fx_sub(self.x, rhs.x),
            y: crate::fixed::fx_sub(self.y, rhs.y),
            z: crate::fixed::fx_sub(self.z, rhs.z),
        }
    }

    pub fn neg(self) -> (r: Vec3)
        ensures
            r@ == neg_v(self@),
    {
        Vec3 { x: fx_neg(self.x), y: fx_neg(self.y), z: fx_neg(self.z) }
    }

    /// Component-wise product.
    pub fn mul(self, rhs: Vec3) -> (r: Vec3)
        ensures
            r@ == mul_v(self@, rhs@),
    {
        Vec3 { x: fx_mul(self.x, rhs.x), y: fx_mul(self.y, rhs.y), z: fx_mul(self.z, rhs.z) }
    }

    /// Product with a scalar.
    pub fn scale(self, t: i64) -> (r: Vec3)
        ensures
            r@ == scale_v(self@, t as int),
    {
        Vec3 { x: fx_mul(self.x, t), y: fx_mul(self.y, t), z: fx_mul(self.z, t) }
    }

    /// Quotient by a scalar.
    pub fn div(self, t: i64) -> (r: Vec3)
        requires
            t != 0,
        ensures
            r@ == div_v(self@, t as int),
    {
        Vec3 { x: fx_div(self.x, t), y: fx_div(self.y, t), z: fx_div(self.z, t) }
    }

    pub fn length_squared(&self) -> (r: i64)
        ensures
            r == len_sq_v(self@),
            r >= 0,
    {
        proof {
            assert(self@.x * self@.x >= 0) by (nonlinear_arith);
            assert(self@.y * self@.y >= 0) by (nonlinear_arith);
            assert(self@.z * self@.z >= 0) by (nonlinear_arith);
        }
        dot(*self, *self)
    }

    pub fn length(&self) -> (r: i64)
        ensures
            r == len_v(self@),
            r >= 0,
    {
        let sq = self.length_squared();
        fx_sqrt(sq)
    }

    /// True when the vector is exactly zero: shorter vectors than one
    /// fraction step do not exist at this resolution.
    pub fn near_zero(&self) -> (r: bool)
        ensures
            r == near_zero_v(self@),
    {
        self.x == 0 && self.y == 0 && self.z == 0
    }
}

impl Default for Vec3 {
    fn default() -> (r: Self)
        ensures
            r@ == zero_v(),
    {
        Vec3 { x: 0, y: 0, z: 0 }
    }
}

fn clamp_component(a: i64) -> (r: i64)
    ensures
        r == cl(a as int),
{
    if a > FX_MAX {
        FX_MAX
    } else if a < -FX_MAX {
        -FX_MAX
    } else {
        a
    }
}

pub fn dot(u: Vec3, v: Vec3) -> (r: i64)
    ensures
        r == dot_v(u@, v@),
        dot_wide(u@, v@) >= 0 ==> r >= 0,
{
    proof {
        use_type_invariant(&u);
        use_type_invariant(&v);
        assert(-(0x4000000000000000000000000000000i128 as int) <= (u.x as int) * (v.x as int)
            <= 0x4000000000000000000000000000000i128 as int) by (nonlinear_arith)
            requires
                -FX_MAX <= u.x <= FX_MAX,
                -FX_MAX <= v.x <= FX_MAX,
                FX_MAX == 2305843009213693952,
        ;
        assert(-(0x4000000000000000000000000000000i128 as int) <= (u.y as int) * (v.y as int)
            <= 0x4000000000000000000000000000000i128 as int) by (nonlinear_arith)
            requires
                -FX_MAX <= u.y <= FX_MAX,
                -FX_MAX <= v.y <= FX_MAX,
                FX_MAX == 2305843009213693952,
        ;
        assert(-(0x4000000000000000000000000000000i128 as int) <= (u.z as int) * (v.z as int)
            <= 0x4000000000000000000000000000000i128 as int) by (nonlinear_arith)
            requires
                -FX_MAX <= u.z <= FX_MAX,
                -FX_MAX <= v.z <= FX_MAX,
                FX_MAX == 2305843009213693952,
        ;
    }
    let px: i128 = (u.x as i128) * (v.x as i128);
    let py: i128 = (u.y as i128) * (v.y as i128);
    let pz: i128 = (u.z as i128) * (v.z as i128);
    let s: i128 = px + py + pz;
    crate::fixed::clamp_wide(s / (SCALE as i128))
}

pub fn cross(u: Vec3, v: Vec3) -> (r: Vec3)
    ensures
        r@ == cross_v(u@, v@),
{
    proof {
        use_type_invariant(&u);
        use_type_invariant(&v);
        lemma_wide_product_bounds(u@, v@);
    }
    let x: i128 = (u.y as i128) * (v.z as i128) - (u.z as i128) * (v.y as i128);
    let y: i128 = (u.z as i128) * (v.x as i128) - (u.x as i128) * (v.z as i128);
    let z: i128 = (u.x as i128) * (v.y as i128) - (u.y as i128) * (v.x as i128);
    Vec3 {
        x: crate::fixed::clamp_wide(x / (SCALE as i128)),
        y: crate::fixed::clamp_wide(y / (SCALE as i128)),
        z: crate::fixed::clamp_wide(z / (SCALE as i128)),
    }
}

proof fn lemma_wide_product_bounds(u: Vec3i, v: Vec3i)
    requires
        bounded(u),
        bounded(v),
    ensures
        -(0x4000000000000000000000000000000i128 as int) <= u.x * v.x
            <= 0x4000000000000000000000000000000i128 as int,
        -(0x4000000000000000000000000000000i128 as int) <= u.x * v.y
            <= 0x4000000000000000000000000000000i128 as int,
        -(0x4000000000000000000000000000000i128 as int) <= u.x * v.z
            <= 0x4000000000000000000000000000000i128 as int,
        -(0x4000000000000000000000000000000i128 as int) <= u.y * v.x
            <= 0x4000000000000000000000000000000i128 as int,
        -(0x4000000000000000000000000000000i128 as int) <= u.y * v.y
            <= 0x4000000000000000000000000000000i128 as int,
        -(0x4000000000000000000000000000000i128 as int) <= u.y * v.z
            <= 0x4000000000000000000000000000000i128 as int,
        -(0x4000000000000000000000000000000i128 as int) <= u.z * v.x
            <= 0x4000000000000000000000000000000i128 as int,
        -(0x4000000000000000000000000000000i128 as int) <= u.z * v.y
            <= 0x4000000000000000000000000000000i128 as int,
        -(0x4000000000000000000000000000000i128 as int) <= u.z * v.z
            <= 0x4000000000000000000000000000000i128 as int,
{
    lemma_one_product_bound(u.x, v.x);
    lemma_one_product_bound(u.x, v.y);
    lemma_one_product_bound(u.x, v.z);
    lemma_one_product_bound(u.y, v.x);
    lemma_one_product_bound(u.y, v.y);
    lemma_one_product_bound(u.y, v.z);
    lemma_one_product_bound(u.z, v.x);
    lemma_one_product_bound(u.z, v.y);
    lemma_one_product_bound(u.z, v.z);
}

proof fn lemma_one_product_bound(a: int, b: int) by (nonlinear_arith)
    requires
        -FX_MAX <= a <= FX_MAX,
        -FX_MAX <= b <= FX_MAX,
    ensures
        -(0x4000000000000000000000000000000i128 as int) <= a * b
            <= 0x4000000000000000000000000000000i128 as int,
{
}

pub fn unit_vector(v: Vec3) -> (r: Vec3)
    requires
        len_v(v@) > 0,
    ensures
        r@ == unit_v(v@),
{
    let len = v.length();
    v.div(len)
}

pub fn reflect(v: Vec3, n: Vec3) -> (r: Vec3)
    ensures
        r@ == reflect_v(v@, n@),
{
    let d = dot(v, n);
    let two_d = fx_add(d, d);
    proof {
        assert(two_d == cl(2 * dot_v(v@, n@)));
    }
    v.sub(n.scale(two_d))
}

impl Vec3 {
    /// A vector whose components are independent fractions in `[0, 1)`.
    pub fn new_random(rng: &mut RandomSource) -> (r: Self)
        ensures
            0 <= r@.x < SCALE,
            0 <= r@.y < SCALE,
            0 <= r@.z < SCALE,
    {
        let x = rng.random_frac();
        let y = rng.random_frac();
        let z = rng.random_frac();
        Vec3::new(x, y, z)
    }

    /// A vector whose components are independent scalars drawn from
    /// `[min, max)`, each blended as `min + (max - min) * f`.
    pub fn new_random_bounded(min: i64, max: i64, rng: &mut RandomSource) -> (r: Self)
        ensures
            exists|a: int, b: int, c: int|
                {
                    &&& 0 <= a < SCALE
                    &&& 0 <= b < SCALE
                    &&& 0 <= c < SCALE
                    &&& r@ == v3(
                        fadd(min as int, fmul(fsub(max as int, min as int), a)),
                        fadd(min as int, fmul(fsub(max as int, min as int), b)),
                        fadd(min as int, fmul(fsub(max as int, min as int), c)),
                    )
                },
    {
        let x = rng.random_frac_in(min, max);
        let y = rng.random_frac_in(min, max);
        let z = rng.random_frac_in(min, max);
        let r = Vec3::new(x, y, z);
        proof {
            let a = choose|f: int|
                0 <= f < SCALE && x == fadd(min as int, fmul(fsub(max as int, min as int), f));
            let b = choose|f: int|
                0 <= f < SCALE && y == fadd(min as int, fmul(fsub(max as int, min as int), f));
            let c = choose|f: int|
                0 <= f < SCALE && z == fadd(min as int, fmul(fsub(max as int, min as int), f));
            assert({
                &&& 0 <= a < SCALE
                &&& 0 <= b < SCALE
                &&& 0 <= c < SCALE
                &&& r@ == v3(
                    fadd(min as int, fmul(fsub(max as int, min as int), a)),
                    fadd(min as int, fmul(fsub(max as int, min as int), b)),
                    fadd(min as int, fmul(fsub(max as int, min as int), c)),
                )
            });
        }
        r
    }
}

/// What every outcome of `random_unit_vector` satisfies: the normalization
/// of some sample with squared length in `(1/4, 1]`, or the fixed upward
/// unit vector once the bounded number of attempts runs out.  Either way
/// the squared length of the result is within 32 fraction steps of one.
pub open spec fn unit_sample(u: Vec3i) -> bool {
    &&& ((exists|p: Vec3i|
        bounded(p) && 4 * len_sq_v(p) > SCALE && len_sq_v(p) <= SCALE && u == unit_v(p)) || u == v3(
        0,
        0,
        SCALE as int,
    ))
    &&& bounded(u)
    &&& SCALE - 32 <= len_sq_v(u) <= SCALE + 32
}

/// Rejection-sample a direction: draw from the cube `[-1, 1)^3` until the
/// squared length lies in `(1/4, 1]`, then normalize.  The lower bound
/// keeps the truncating normalization near unit length.  Attempts are
/// bounded; the chance of exhausting them is negligible, and the fixed
/// upward unit vector is returned in that case.
pub fn random_unit_vector(rng: &mut RandomSource) -> (r: Vec3)
    ensures
        unit_sample(r@),
{
    let mut attempts: u64 = 0;
    while attempts < 64
        decreases 64 - attempts,
    {
        let p = Vec3::new_random_bounded(-SCALE, SCALE, rng);
        let lensq = p.length_squared();
        if lensq > SCALE / 4 && lensq <= SCALE {
            proof {
                use_type_invariant(&p);
                lemma_positive_len(p@);
                lemma_unit_vector_near_unit(p@);
            }
            let u = unit_vector(p);
            proof {
                use_type_invariant(&u);
            }
            return u;
        }
        attempts = attempts + 1;
    }
    let up = Vec3::new(0, 0, SCALE);
    proof {
        lemma_up_is_unit();
    }
    up
}

/// The fixed upward fallback direction is a unit vector exactly.
proof fn lemma_up_is_unit()
    ensures
        len_sq_v(v3(0, 0, SCALE as int)) == SCALE,
        bounded(v3(0, 0, SCALE as int)),
{
    let u = v3(0, 0, SCALE as int);
    assert(u.x == 0 && u.y == 0 && u.z == SCALE);
    assert(dot_wide(u, u) == (SCALE as int) * (SCALE as int));
    assert(tdiv((SCALE as int) * (SCALE as int), SCALE as int) == SCALE) by (nonlinear_arith)
        requires
            SCALE == 1048576,
    ;
}

/// A vector of positive squared length has a positive length.
pub proof fn lemma_positive_len(v: Vec3i)
    requires
        len_sq_v(v) > 0,
    ensures
        len_v(v) > 0,
{
    assert(len_sq_v(v) * SCALE >= SCALE) by (nonlinear_arith)
        requires
            len_sq_v(v) >= 1,
            SCALE == 1048576,
    ;
    crate::fixed::lemma_sqrt_floor_bounds(len_sq_v(v) * SCALE);
}

/// A unit-style sample, flipped if needed so that it points to the same
/// side as `normal`; the flip keeps its near-unit length.
pub fn random_on_hemisphere(normal: Vec3, rng: &mut RandomSource) -> (r: Vec3)
    ensures
        exists|u: Vec3i|
            unit_sample(u) && r@ == (if dot_v(u, normal@) > 0 {
                u
            } else {
                neg_v(u)
            }),
        SCALE - 32 <= len_sq_v(r@) <= SCALE + 32,
{
    let on_unit_sphere = random_unit_vector(rng);
    if dot(on_unit_sphere, normal) > 0 {
        on_unit_sphere
    } else {
        proof {
            lemma_len_sq_neg(on_unit_sphere@);
        }
        on_unit_sphere.neg()
    }
}

/// Negation preserves the squared length of a representable vector.
proof fn lemma_len_sq_neg(u: Vec3i)
    requires
        bounded(u),
    ensures
        len_sq_v(neg_v(u)) == len_sq_v(u),
{
    let n = neg_v(u);
    assert(n.x == -u.x && n.y == -u.y && n.z == -u.z);
    assert((-u.x) * (-u.x) == u.x * u.x) by (nonlinear_arith);
    assert((-u.y) * (-u.y) == u.y * u.y) by (nonlinear_arith);
    assert((-u.z) * (-u.z) == u.z * u.z) by (nonlinear_arith);
    assert(dot_wide(n, n) == dot_wide(u, u));
}

/// Rejection-sample a point of the unit disk in the xy-plane.  Attempts
/// are bounded; the center is returned once they run out.
pub fn random_in_unit_disk(rng: &mut RandomSource) -> (r: Vec3)
    ensures
        len_sq_v(r@) < SCALE,
        r@.z == 0,
{
    let mut attempts: u64 = 0;
    while attempts < 64
        decreases 64 - attempts,
    {
        let x = rng.random_frac_in(-SCALE, SCALE);
        let y = rng.random_frac_in(-SCALE, SCALE);
        let p = Vec3::new(x, y, 0);
        let lensq = p.length_squared();
        if lensq < SCALE {
            return p;
        }
        attempts = attempts + 1;
    }
    proof {
        let z = v3(0, 0, 0);
        assert(z.x == 0 && z.y == 0 && z.z == 0);
        assert(dot_wide(z, z) == 0);
        assert(tdiv(0, SCALE as int) == 0);
        assert(len_sq_v(z) == 0);
    }
    Vec3::new(0, 0, 0)
}

/// Law: normalizing brings the length to one, up to rounding.  For a
/// vector whose squared length exceeds a quarter unit and does not
/// saturate, the squared length of `unit_v(v)` lies within 32 fraction
/// steps of one whole unit.  Much shorter vectors lose too much precision
/// to the truncating divisions for a uniform bound of this kind: a vector
/// of a few thousandths of a unit is such an input.
pub proof fn lemma_unit_vector_near_unit(v: Vec3i)
    requires
        bounded(v),
        len_sq_v(v) < FX_MAX,
        4 * len_sq_v(v) > SCALE,
    ensures
        SCALE - 32 <= len_sq_v(unit_v(v)) <= SCALE + 32,
{
    let s = SCALE as int;
    let w = dot_wide(v, v);
    assert(v.x * v.x >= 0) by (nonlinear_arith);
    assert(v.y * v.y >= 0) by (nonlinear_arith);
    assert(v.z * v.z >= 0) by (nonlinear_arith);
    let q = tdiv(w, s);
    crate::fixed::lemma_tdiv_mul_close(w, s);
    assert(len_sq_v(v) == cl(q));
    assert(q < FX_MAX);
    assert(len_sq_v(v) == q);
    let qs = q * s;
    assert(q * s >= 0) by (nonlinear_arith)
        requires
            q >= 0,
            s > 0,
    ;
    // w is within one scale step of q * s
    assert(q * s <= w < q * s + s);
    let l = len_v(v);
    crate::fixed::lemma_sqrt_floor_bounds(qs);
    assert(l * l <= qs < (l + 1) * (l + 1));

    // the length is at least half a unit
    assert(q * s >= 262145 * s) by (nonlinear_arith)
        requires
            q >= 262145,
            s > 0,
    ;
    assert(262145 * s > 524288 * 524288) by (nonlinear_arith)
        requires
            s == 1048576,
    ;
    assert(l + 1 > 524288) by (nonlinear_arith)
        requires
            (l + 1) * (l + 1) > 524288 * 524288,
            l + 1 >= 0,
    ;
    assert(2 * l >= s);
    assert(l * l > 0) by (nonlinear_arith)
        requires
            l > 0,
    ;

    // each component is at most l + 1025 in magnitude
    assert((l + 1) * (l + 1) + s <= (l + 1025) * (l + 1025)) by (nonlinear_arith)
        requires
            l >= 0,
            s == 1048576,
    ;
    let m = l + 1025;
    assert(v.x * v.x <= m * m && v.y * v.y <= m * m && v.z * v.z <= m * m);
    assert(-m <= v.x <= m) by (nonlinear_arith)
        requires
            v.x * v.x <= m * m,
            m > 0,
    ;
    assert(-m <= v.y <= m) by (nonlinear_arith)
        requires
            v.y * v.y <= m * m,
            m > 0,
    ;
    assert(-m <= v.z <= m) by (nonlinear_arith)
        requires
            v.z * v.z <= m * m,
            m > 0,
    ;
    // so each scaled component is at most (s + 2050) * l
    let b = s + 2050;
    assert(m * s <= b * l) by (nonlinear_arith)
        requires
            2 * l >= s,
            m == l + 1025,
            b == s + 2050,
    ;
    assert(-(b * l) <= v.x * s <= b * l) by (nonlinear_arith)
        requires
            -m <= v.x <= m,
            s > 0,
            m * s <= b * l,
    ;
    assert(-(b * l) <= v.y * s <= b * l) by (nonlinear_arith)
        requires
            -m <= v.y <= m,
            s > 0,
            m * s <= b * l,
    ;
    assert(-(b * l) <= v.z * s <= b * l) by (nonlinear_arith)
        requires
            -m <= v.z <= m,
            s > 0,
            m * s <= b * l,
    ;

    // the rounded unit components do not saturate
    let tx = tdiv(v.x * s, l);
    let ty = tdiv(v.y * s, l);
    let tz = tdiv(v.z * s, l);
    crate::fixed::lemma_tdiv_bounded(v.x * s, l, b);
    crate::fixed::lemma_tdiv_bounded(v.y * s, l, b);
    crate::fixed::lemma_tdiv_bounded(v.z * s, l, b);
    let u = unit_v(v);
    assert(u.x == tx && u.y == ty && u.z == tz);

    // each squared rounded component stays near the exact square
    crate::fixed::lemma_tdiv_mul_close(v.x * s, l);
    crate::fixed::lemma_tdiv_mul_close(v.y * s, l);
    crate::fixed::lemma_tdiv_mul_close(v.z * s, l);
    lemma_scaled_component_error(tx, l, v.x * s, b);
    lemma_scaled_component_error(ty, l, v.y * s, b);
    lemma_scaled_component_error(tz, l, v.z * s, b);

    // sum the three component errors
    let uu = dot_wide(u, u);
    let e1 = 2 * b + 1;
    lemma_mul_distributes_3(l * l, tx * tx, ty * ty, tz * tz);
    assert(uu * (l * l) == (tx * tx) * (l * l) + (ty * ty) * (l * l) + (tz * tz) * (l * l))
        by (nonlinear_arith)
        requires
            uu == tx * tx + ty * ty + tz * tz,
    ;
    assert((v.x * s) * (v.x * s) == (v.x * v.x) * (s * s)) by (nonlinear_arith);
    assert((v.y * s) * (v.y * s) == (v.y * v.y) * (s * s)) by (nonlinear_arith);
    assert((v.z * s) * (v.z * s) == (v.z * v.z) * (s * s)) by (nonlinear_arith);
    assert(w * (s * s) == (v.x * v.x) * (s * s) + (v.y * v.y) * (s * s) + (v.z * v.z) * (s * s))
        by (nonlinear_arith)
        requires
            w == v.x * v.x + v.y * v.y + v.z * v.z,
    ;
    assert(w * (s * s) - 3 * (e1 * (l * l)) <= uu * (l * l) <= w * (s * s) + 3 * (e1 * (l * l)));

    // relate w * s^2 to l^2 * s^2 through the square root bounds
    assert(w * (s * s) >= (l * l) * (s * s)) by (nonlinear_arith)
        requires
            w >= q * s,
            q * s >= l * l,
            s > 0,
    ;
    assert(w * (s * s) <= ((l + 1) * (l + 1) + s) * (s * s)) by (nonlinear_arith)
        requires
            w < q * s + s,
            q * s < (l + 1) * (l + 1),
            s > 0,
    ;

    // assemble the upper bound: uu <= s^2 + 31s
    assert(((l + 1) * (l + 1) + s) * (s * s) + 3 * (e1 * (l * l)) <= (s * s + 31 * s) * (l * l))
        by (nonlinear_arith)
        requires
            2 * l >= s,
            s == 1048576,
            e1 == 2 * s + 4101,
    ;
    assert(uu <= s * s + 31 * s) by (nonlinear_arith)
        requires
            uu * (l * l) <= (s * s + 31 * s) * (l * l),
            l * l > 0,
    ;

    // and the lower bound: uu >= s^2 - 31s
    assert((l * l) * (s * s) - 3 * (e1 * (l * l)) >= (s * s - 31 * s) * (l * l))
        by (nonlinear_arith)
        requires
            s == 1048576,
            e1 == 2 * s + 4101,
    ;
    assert(uu >= s * s - 31 * s) by (nonlinear_arith)
        requires
            uu * (l * l) >= (s * s - 31 * s) * (l * l),
            l * l > 0,
    ;

    // the final rounding step keeps the squared length within 32 steps
    let p = tdiv(uu, s);
    crate::fixed::lemma_tdiv_mul_close(uu, s);
    assert(p <= s + 31) by (nonlinear_arith)
        requires
            p * s <= uu,
            uu <= s * s + 31 * s,
            s > 0,
    ;
    assert(p >= s - 31) by (nonlinear_arith)
        requires
            p * s > uu - s,
            uu >= s * s - 31 * s,
            s > 0,
    ;
    assert(len_sq_v(u) == cl(p));
}

/// The square of a truncated quotient, rescaled by the divisor, stays
/// within `(2*bound + 1) * l^2` of the square of the numerator.
proof fn lemma_scaled_component_error(t: int, l: int, c: int, bound: int)
    by (nonlinear_arith)
    requires
        l > 0,
        bound >= 0,
        -l < t * l - c < l,
        -(bound * l) <= c <= bound * l,
    ensures
        (c * c) - (2 * bound + 1) * (l * l) <= (t * t) * (l * l) <= (c * c) + (2 * bound + 1) * (l
            * l),
{
}

/// Reflection in the exact model, before any rounding: components carry
/// two extra factors of the scale, so that `v - 2*dot(v,n)*n` is formed
/// from wide dot products alone.
pub open spec fn reflect_exact(v: Vec3i, n: Vec3i) -> Vec3i {
    Vec3i {
        x: v.x * SCALE * SCALE - 2 * dot_wide(v, n) * n.x,
        y: v.y * SCALE * SCALE - 2 * dot_wide(v, n) * n.y,
        z: v.z * SCALE * SCALE - 2 * dot_wide(v, n) * n.z,
    }
}

/// Law: mirroring about a unit normal exactly negates the component along
/// the normal, `dot(reflect(v, n), n) == -dot(v, n)`, and preserves the
/// tangential component: adding the normal part `dot(v, n) * n` back onto
/// the reflection recovers `v`'s own tangential part.  Stated in the
/// exact model where the rounded operations have not intervened; the
/// extra scale factors balance the scale carried by `reflect_exact`.
pub proof fn lemma_reflect_flips_normal_component(v: Vec3i, n: Vec3i)
    requires
        dot_wide(n, n) == SCALE * SCALE,
    ensures
        dot_wide(reflect_exact(v, n), n) == -(SCALE * SCALE) * dot_wide(v, n),
        reflect_exact(v, n).x + dot_wide(v, n) * n.x == v.x * (SCALE * SCALE) - dot_wide(v, n)
            * n.x,
        reflect_exact(v, n).y + dot_wide(v, n) * n.y == v.y * (SCALE * SCALE) - dot_wide(v, n)
            * n.y,
        reflect_exact(v, n).z + dot_wide(v, n) * n.z == v.z * (SCALE * SCALE) - dot_wide(v, n)
            * n.z,
{
    let d = dot_wide(v, n);
    let k = (SCALE * SCALE) as int;
    assert(v.x * SCALE * SCALE == v.x * (SCALE * SCALE)) by (nonlinear_arith);
    assert(v.y * SCALE * SCALE == v.y * (SCALE * SCALE)) by (nonlinear_arith);
    assert(v.z * SCALE * SCALE == v.z * (SCALE * SCALE)) by (nonlinear_arith);
    lemma_reflect_component(v.x, n.x, d, k);
    lemma_reflect_component(v.y, n.y, d, k);
    lemma_reflect_component(v.z, n.z, d, k);
    let r = reflect_exact(v, n);
    assert(r.x == v.x * k - 2 * d * n.x);
    assert(r.x * n.x == k * (v.x * n.x) - 2 * d * (n.x * n.x));
    assert(r.y * n.y == k * (v.y * n.y) - 2 * d * (n.y * n.y));
    assert(r.z * n.z == k * (v.z * n.z) - 2 * d * (n.z * n.z));
    lemma_mul_distributes_3(k, v.x * n.x, v.y * n.y, v.z * n.z);
    lemma_mul_distributes_3(2 * d, n.x * n.x, n.y * n.y, n.z * n.z);
    assert(dot_wide(r, n) == k * d - 2 * d * (dot_wide(n, n)));
    assert(2 * d * (dot_wide(n, n)) == 2 * d * k);
    assert(k * d - 2 * d * k == -k * d) by (nonlinear_arith);
    assert(dot_wide(r, n) == -(SCALE * SCALE) * dot_wide(v, n));
    assert(r.x + d * n.x == v.x * (SCALE * SCALE) - d * n.x) by (nonlinear_arith)
        requires
            r.x == v.x * SCALE * SCALE - 2 * d * n.x,
    ;
    assert(r.y + d * n.y == v.y * (SCALE * SCALE) - d * n.y) by (nonlinear_arith)
        requires
            r.y == v.y * SCALE * SCALE - 2 * d * n.y,
    ;
    assert(r.z + d * n.z == v.z * (SCALE * SCALE) - d * n.z) by (nonlinear_arith)
        requires
            r.z == v.z * SCALE * SCALE - 2 * d * n.z,
    ;
}

proof fn lemma_reflect_component(a: int, b: int, d: int, k: int)
    by (nonlinear_arith)
    ensures
        (a * k - 2 * d * b) * b == k * (a * b) - 2 * d * (b * b),
{
}

proof fn lemma_mul_distributes_3(k: int, x: int, y: int, z: int)
    by (nonlinear_arith)
    ensures
        k * (x + y + z) == k * x + k * y + k * z,
{
}

/// Law: the executable, rounded reflection also flips the dot with the
/// normal, up to a few fraction steps: for an exactly unit normal and a
/// vector of at most a million units or so, `dot(reflect(v, n), n)`
/// differs from `-dot(v, n)` by at most 8 steps.  The size bound keeps
/// every intermediate value away from saturation.
pub proof fn lemma_reflect_dot_rounded(v: Vec3i, n: Vec3i)
    requires
        dot_wide(n, n) == SCALE * SCALE,
        -1099511627776 <= v.x <= 1099511627776,
        -1099511627776 <= v.y <= 1099511627776,
        -1099511627776 <= v.z <= 1099511627776,
    ensures
        -8 <= dot_v(reflect_v(v, n), n) + dot_v(v, n) <= 8,
{
    let s = SCALE as int;
    let vb = 1099511627776int;

    // a unit normal has components of at most one unit
    assert(n.x * n.x >= 0) by (nonlinear_arith);
    assert(n.y * n.y >= 0) by (nonlinear_arith);
    assert(n.z * n.z >= 0) by (nonlinear_arith);
    assert(-s <= n.x <= s) by (nonlinear_arith)
        requires
            n.x * n.x <= s * s,
            s > 0,
    ;
    assert(-s <= n.y <= s) by (nonlinear_arith)
        requires
            n.y * n.y <= s * s,
            s > 0,
    ;
    assert(-s <= n.z <= s) by (nonlinear_arith)
        requires
            n.z * n.z <= s * s,
            s > 0,
    ;

    // the wide dot of v and n is bounded, so its rounding does not saturate
    let dw = dot_wide(v, n);
    assert(-(vb * s) <= v.x * n.x <= vb * s) by (nonlinear_arith)
        requires
            -vb <= v.x <= vb,
            -s <= n.x <= s,
            vb > 0,
            s > 0,
    ;
    assert(-(vb * s) <= v.y * n.y <= vb * s) by (nonlinear_arith)
        requires
            -vb <= v.y <= vb,
            -s <= n.y <= s,
            vb > 0,
            s > 0,
    ;
    assert(-(vb * s) <= v.z * n.z <= vb * s) by (nonlinear_arith)
        requires
            -vb <= v.z <= vb,
            -s <= n.z <= s,
            vb > 0,
            s > 0,
    ;
    assert((3 * vb) * s == vb * s + vb * s + vb * s) by (nonlinear_arith);
    crate::fixed::lemma_tdiv_bounded(dw, s, 3 * vb);
    crate::fixed::lemma_tdiv_mul_close(dw, s);
    let d = tdiv(dw, s);
    assert(dot_v(v, n) == d);
    let t = cl(2 * d);
    assert(t == 2 * d);

    // the rounded scaled-normal components and their remainders
    assert(-((6 * vb) * s) <= n.x * t <= (6 * vb) * s) by (nonlinear_arith)
        requires
            -s <= n.x <= s,
            -(6 * vb) <= t <= 6 * vb,
            vb > 0,
            s > 0,
    ;
    assert(-((6 * vb) * s) <= n.y * t <= (6 * vb) * s) by (nonlinear_arith)
        requires
            -s <= n.y <= s,
            -(6 * vb) <= t <= 6 * vb,
            vb > 0,
            s > 0,
    ;
    assert(-((6 * vb) * s) <= n.z * t <= (6 * vb) * s) by (nonlinear_arith)
        requires
            -s <= n.z <= s,
            -(6 * vb) <= t <= 6 * vb,
            vb > 0,
            s > 0,
    ;
    crate::fixed::lemma_tdiv_bounded(n.x * t, s, 6 * vb);
    crate::fixed::lemma_tdiv_bounded(n.y * t, s, 6 * vb);
    crate::fixed::lemma_tdiv_bounded(n.z * t, s, 6 * vb);
    crate::fixed::lemma_tdiv_mul_close(n.x * t, s);
    crate::fixed::lemma_tdiv_mul_close(n.y * t, s);
    crate::fixed::lemma_tdiv_mul_close(n.z * t, s);
    let mx = tdiv(n.x * t, s);
    let my = tdiv(n.y * t, s);
    let mz = tdiv(n.z * t, s);
    let fx_ = n.x * t - mx * s;
    let fy_ = n.y * t - my * s;
    let fz_ = n.z * t - mz * s;

    // the reflection's components are exactly v minus the rounded terms
    let r = reflect_v(v, n);
    assert(r.x == v.x - mx && r.y == v.y - my && r.z == v.z - mz);

    // expand the reflection's wide dot
    let w = dot_wide(r, n);
    assert((v.x - mx) * n.x == v.x * n.x - mx * n.x) by (nonlinear_arith);
    assert((v.y - my) * n.y == v.y * n.y - my * n.y) by (nonlinear_arith);
    assert((v.z - mz) * n.z == v.z * n.z - mz * n.z) by (nonlinear_arith);
    assert(w == dw - (mx * n.x + my * n.y + mz * n.z));

    // scale the rounded terms back up: s * (m . n) == t * s^2 - f . n
    assert(s * (mx * n.x) == (n.x * t) * n.x - fx_ * n.x) by (nonlinear_arith)
        requires
            mx * s == n.x * t - fx_,
    ;
    assert(s * (my * n.y) == (n.y * t) * n.y - fy_ * n.y) by (nonlinear_arith)
        requires
            my * s == n.y * t - fy_,
    ;
    assert(s * (mz * n.z) == (n.z * t) * n.z - fz_ * n.z) by (nonlinear_arith)
        requires
            mz * s == n.z * t - fz_,
    ;
    assert((n.x * t) * n.x == t * (n.x * n.x)) by (nonlinear_arith);
    assert((n.y * t) * n.y == t * (n.y * n.y)) by (nonlinear_arith);
    assert((n.z * t) * n.z == t * (n.z * n.z)) by (nonlinear_arith);
    lemma_mul_distributes_3(t, n.x * n.x, n.y * n.y, n.z * n.z);
    lemma_mul_distributes_3(s, mx * n.x, my * n.y, mz * n.z);
    let fsum = fx_ * n.x + fy_ * n.y + fz_ * n.z;
    assert(s * (mx * n.x + my * n.y + mz * n.z) == t * (s * s) - fsum);

    // bound the remainder sum by three square steps
    assert(-(s * s) <= fx_ * n.x <= s * s) by (nonlinear_arith)
        requires
            -s <= fx_ <= s,
            -s <= n.x <= s,
            s > 0,
    ;
    assert(-(s * s) <= fy_ * n.y <= s * s) by (nonlinear_arith)
        requires
            -s <= fy_ <= s,
            -s <= n.y <= s,
            s > 0,
    ;
    assert(-(s * s) <= fz_ * n.z <= s * s) by (nonlinear_arith)
        requires
            -s <= fz_ <= s,
            -s <= n.z <= s,
            s > 0,
    ;

    // assemble: s * w == -d * s^2 + s * e0 + fsum, within 4 s^2 of -d * s^2
    let e0 = dw - d * s;
    lemma_mul_distributes_3(s, dw, -(mx * n.x + my * n.y + mz * n.z), 0);
    assert(s * w == s * dw - s * (mx * n.x + my * n.y + mz * n.z)) by (nonlinear_arith)
        requires
            w == dw - (mx * n.x + my * n.y + mz * n.z),
    ;
    assert(s * dw == (d * s) * s + s * e0) by (nonlinear_arith)
        requires
            dw == d * s + e0,
    ;
    assert(t * (s * s) == 2 * ((d * s) * s)) by (nonlinear_arith)
        requires
            t == 2 * d,
    ;
    assert(-(s * s) < s * e0 < s * s) by (nonlinear_arith)
        requires
            -s < e0 < s,
            s > 0,
    ;
    assert(s * w == s * e0 + fsum - (d * s) * s);
    assert(s * w >= s * ((-d - 4) * s)) by (nonlinear_arith)
        requires
            s * w >= -((d * s) * s) - 4 * (s * s),
            s > 0,
    ;
    assert(s * w <= s * ((-d + 4) * s)) by (nonlinear_arith)
        requires
            s * w <= -((d * s) * s) + 4 * (s * s),
            s > 0,
    ;
    assert((-d - 4) * s <= w <= (-d + 4) * s) by (nonlinear_arith)
        requires
            s * ((-d - 4) * s) <= s * w <= s * ((-d + 4) * s),
            s > 0,
    ;

    // the final rounding moves the dot by less than one more step
    crate::fixed::lemma_tdiv_mul_close(w, s);
    let q = tdiv(w, s);
    assert(-d - 6 <= q <= -d + 6) by (nonlinear_arith)
        requires
            q * s < w + s,
            w - s < q * s,
            (-d - 4) * s <= w <= (-d + 4) * s,
            s > 0,
    ;
    assert(dot_v(r, n) == q);
}

pub fn refract(uv: Vec3, n: Vec3, etai_over_etat: i64) -> (r: Vec3)
    ensures
        r@ == refract_v(uv@, n@, etai_over_etat as int),
{
    let d = dot(uv.neg(), n);
    let cos_theta = if d > SCALE {
        SCALE
    } else {
        d
    };
    let r_out_perp = uv.add(n.scale(cos_theta)).scale(etai_over_etat);
    let k = crate::fixed::fx_sub(SCALE, r_out_perp.length_squared());
    let abs_k = fx_abs(k);
    let r_out_parallel = n.scale(fx_neg(fx_sqrt(abs_k)));
    r_out_perp.add(r_out_parallel)
}

} // verus!
