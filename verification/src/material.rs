use vstd::prelude::*;

use crate::fixed::{fadd, fdiv, fmul, fsub, fx_abs, fx_add, fx_div, fx_mul, fx_sqrt, fx_sub,
    sqrt_floor, tdiv, SCALE};
use crate::hittable::{HitRecord, HitRecordi};
use crate::ray::{Ray, Rayi};
use crate::rng::RandomSource;
use crate::vec3::{add_v, dot, dot_v, len_sq_v, near_zero_v, neg_v, random_unit_vector, reflect,
    reflect_v, refract, refract_cos, refract_v, scale_v, unit_sample, unit_v, unit_vector, v3,
    Vec3, Vec3i};

verus! {

/// Diffuse surface: scatters into a random direction biased by the normal,
/// always attenuating by its albedo.
#[derive(Clone, Copy, Debug)]
pub struct Lambertian {
    albedo: Vec3,
}

impl View for Lambertian {
    type V = Vec3i;

    closed spec fn view(&self) -> Vec3i {
        self.albedo@
    }
}

impl Lambertian {
    pub fn new(albedo: Vec3) -> (r: Self)
        ensures
            r@ == albedo@,
    {
        Lambertian { albedo }
    }

    pub fn albedo(&self) -> (r: Vec3)
        ensures
            r@ == self@,
    {
        self.albedo
    }
}

impl Default for Lambertian {
    fn default() -> (r: Self)
        ensures
            r@ == crate::vec3::zero_v(),
    {
        Lambertian { albedo: Vec3::default() }
    }
}

/// The mathematical value of a metal surface: albedo and fuzz radius.
pub struct Metali {
    pub albedo: Vec3i,
    pub fuzz: int,
}

/// Specular surface: reflects, perturbed by `fuzz` times a random unit
/// vector; rays perturbed into the surface are absorbed.
#[derive(Clone, Copy, Debug)]
pub struct Metal {
    albedo: Vec3,
    fuzz: i64,
}

impl View for Metal {
    type V = Metali;

    closed spec fn view(&self) -> Metali {
        Metali { albedo: self.albedo@, fuzz: self.fuzz as int }
    }
}

impl Metal {
    /// The fuzz radius is clamped into `[0, 1]`.
    pub fn new(albedo: Vec3, fuzz: i64) -> (r: Self)
        ensures
            r@.albedo == albedo@,
            r@.fuzz == if fuzz < 0 {
                0int
            } else if fuzz < SCALE {
                fuzz as int
            } else {
                SCALE as int
            },
    {
        Metal {
            albedo,
            fuzz: if fuzz < 0 {
                0
            } else if fuzz < SCALE {
                fuzz
            } else {
                SCALE
            },
        }
    }

    pub fn albedo(&self) -> (r: Vec3)
        ensures
            r@ == self@.albedo,
    {
        self.albedo
    }

    pub fn fuzz(&self) -> (r: i64)
        ensures
            r == self@.fuzz,
    {
        self.fuzz
    }
}

/// Transparent surface: refracts or reflects according to Snell's law and
/// the Schlick reflectance, never attenuating.
#[derive(Clone, Copy, Debug)]
pub struct Dielectric {
    refraction_index: i64,
}

impl View for Dielectric {
    type V = int;

    closed spec fn view(&self) -> int {
        self.refraction_index as int
    }
}

impl Dielectric {
    /// The index of refraction of the material relative to the enclosing
    /// medium, as a positive scalar.
    pub fn new(refraction_index: i64) -> (r: Self)
        requires
            refraction_index > 0,
        ensures
            r@ == refraction_index as int,
    {
        Dielectric { refraction_index }
    }

    pub fn refraction_index(&self) -> (r: i64)
        ensures
            r == self@,
            r > 0,
    {
        proof {
            use_type_invariant(&*self);
        }
        self.refraction_index
    }

    #[verifier::type_invariant]
    spec fn wf(self) -> bool {
        self.refraction_index > 0
    }
}

/// How a surface responds to light: one of the three scattering models.
#[derive(Clone, Copy, Debug)]
pub enum Material {
    Lambertian(Lambertian),
    Metal(Metal),
    Dielectric(Dielectric),
}

/// What a successful scatter produces: an attenuation color and the
/// outgoing ray.
#[derive(Clone, Copy)]
pub struct Scatter {
    pub attenuation: Vec3,
    pub scattered: crate::ray::Ray,
}

/// The diffuse scatter direction: the hit normal plus a random unit
/// vector, falling back to the normal itself when the sum vanishes.
pub open spec fn lambertian_dir(normal: Vec3i, rv: Vec3i) -> Vec3i {
    let d = add_v(normal, rv);
    if near_zero_v(d) {
        normal
    } else {
        d
    }
}

/// What any outcome of a Lambertian scatter with sample `rv` satisfies:
/// the surface always scatters, attenuates by its albedo, and sends the
/// ray from the hit point along the diffuse direction.
pub open spec fn lambertian_scatter_ok(albedo: Vec3i, rec: HitRecordi, rv: Vec3i, res: Option<
    Scatter,
>) -> bool {
    match res {
        None => false,
        Some(sc) => {
            &&& sc.attenuation@ == albedo
            &&& sc.scattered@.orig == rec.p
            &&& sc.scattered@.dir == lambertian_dir(rec.normal, rv)
        },
    }
}

/// The diffuse direction is never the zero vector when the hit normal is
/// not: either the perturbed sum is nonzero, or the fallback normal is
/// used.
pub proof fn lemma_lambertian_dir_nonzero(normal: Vec3i, rv: Vec3i)
    requires
        !near_zero_v(normal),
    ensures
        !near_zero_v(lambertian_dir(normal, rv)),
{
}

impl Lambertian {
    /// The deterministic part of the diffuse scatter, taking the sampled
    /// unit vector as an argument.
    pub fn scatter_with(&self, rec: &HitRecord, rv: Vec3) -> (res: Option<Scatter>)
        ensures
            lambertian_scatter_ok(self@, rec@, rv@, res),
    {
        let mut scatter_direction = rec.normal().add(rv);
        if scatter_direction.near_zero() {
            scatter_direction = rec.normal();
        }
        Some(
            Scatter {
                attenuation: self.albedo,
                scattered: Ray::new(rec.p(), scatter_direction),
            },
        )
    }

    /// Diffuse scatter: always succeeds, with a freshly sampled direction.
    pub fn scatter(&self, _r_in: Ray, rec: &HitRecord, rng: &mut RandomSource) -> (res: Option<
        Scatter,
    >)
        ensures
            exists|u: Vec3i| unit_sample(u) && lambertian_scatter_ok(self@, rec@, u, res),
    {
        let rv = random_unit_vector(rng);
        let res = self.scatter_with(rec, rv);
        proof {
            assert(unit_sample(rv@) && lambertian_scatter_ok(self@, rec@, rv@, res));
        }
        res
    }
}

/// The specular scatter direction: the normalized reflection perturbed by
/// `fuzz` times the sample.
pub open spec fn metal_dir(in_dir: Vec3i, normal: Vec3i, fuzz: int, rv: Vec3i) -> Vec3i {
    add_v(unit_v(reflect_v(in_dir, normal)), scale_v(rv, fuzz))
}

/// What any outcome of a metal scatter with sample `rv` satisfies: the ray
/// is absorbed exactly when the reflection is too short to normalize or
/// the perturbed direction dives back into the surface; otherwise it
/// leaves the hit point along that direction, attenuated by the albedo.
pub open spec fn metal_scatter_ok(m: Metali, r_in: Rayi, rec: HitRecordi, rv: Vec3i, res: Option<
    Scatter,
>) -> bool {
    let refl = reflect_v(r_in.dir, rec.normal);
    let dir = metal_dir(r_in.dir, rec.normal, m.fuzz, rv);
    match res {
        None => len_sq_v(refl) == 0 || dot_v(dir, rec.normal) <= 0,
        Some(sc) => {
            &&& len_sq_v(refl) > 0
            &&& dot_v(dir, rec.normal) > 0
            &&& sc.attenuation@ == m.albedo
            &&& sc.scattered@.orig == rec.p
            &&& sc.scattered@.dir == dir
        },
    }
}

impl Metal {
    /// The deterministic part of the specular scatter, taking the sampled
    /// unit vector as an argument.
    pub fn scatter_with(&self, r_in: Ray, rec: &HitRecord, rv: Vec3) -> (res: Option<Scatter>)
        ensures
            metal_scatter_ok(self@, r_in@, rec@, rv@, res),
    {
        let reflected = reflect(r_in.direction(), rec.normal());
        if reflected.length_squared() == 0 {
            // too short to normalize: treat as absorbed
            return None;
        }
        proof {
            crate::vec3::lemma_positive_len(reflected@);
        }
        let dir = unit_vector(reflected).add(rv.scale(self.fuzz));
        if dot(dir, rec.normal()) > 0 {
            Some(Scatter { attenuation: self.albedo, scattered: Ray::new(rec.p(), dir) })
        } else {
            None
        }
    }

    /// Specular scatter with a freshly sampled perturbation; the ray is
    /// absorbed when fuzz pushes it below the surface.
    pub fn scatter(&self, r_in: Ray, rec: &HitRecord, rng: &mut RandomSource) -> (res: Option<
        Scatter,
    >)
        ensures
            exists|u: Vec3i| unit_sample(u) && metal_scatter_ok(self@, r_in@, rec@, u, res),
    {
        let rv = random_unit_vector(rng);
        let res = self.scatter_with(r_in, rec, rv);
        proof {
            assert(unit_sample(rv@) && metal_scatter_ok(self@, r_in@, rec@, rv@, res));
        }
        res
    }
}

/// The effective refraction ratio at a hit: the reciprocal of the stored
/// index when entering the surface, the index itself when leaving.
pub open spec fn dielectric_ratio(idx: int, front_face: bool) -> int
    recommends
        idx > 0,
{
    if front_face {
        fdiv(SCALE as int, idx)
    } else {
        idx
    }
}

/// The incidence sine from the capped cosine, guarded against a negative
/// radicand from rounding.
pub open spec fn dielectric_sin(cos: int) -> int {
    let k = fsub(SCALE as int, fmul(cos, cos));
    let abs_k = if k < 0 {
        -k
    } else {
        k
    };
    sqrt_floor(abs_k * SCALE)
}

/// Schlick's reflectance approximation for cosine `cos` and effective
/// ratio `ri`: `r0 + (1 - r0) * (1 - cos)^5` with `r0 = ((1-ri)/(1+ri))^2`.
pub open spec fn schlick(cos: int, ri: int) -> int {
    let r0 = fdiv(fsub(SCALE as int, ri), fadd(SCALE as int, ri));
    let r0sq = fmul(r0, r0);
    let p = fsub(SCALE as int, cos);
    let p5 = fmul(fmul(fmul(fmul(p, p), p), p), p);
    fadd(r0sq, fmul(fsub(SCALE as int, r0sq), p5))
}

/// Whether the dielectric reflects: forced by total internal reflection
/// when `ri * sin > 1`, otherwise decided by comparing the Schlick
/// reflectance against the uniform draw `u`.
pub open spec fn dielectric_reflects(ud: Vec3i, n: Vec3i, ri: int, u: int) -> bool {
    let cos = refract_cos(ud, n);
    fmul(ri, dielectric_sin(cos)) > SCALE || schlick(cos, ri) > u
}

/// The outgoing dielectric direction for unit incident direction `ud`.
pub open spec fn dielectric_dir(ud: Vec3i, n: Vec3i, ri: int, u: int) -> Vec3i {
    if dielectric_reflects(ud, n, ri, u) {
        reflect_v(ud, n)
    } else {
        refract_v(ud, n, ri)
    }
}

/// What any outcome of a dielectric scatter with draw `u` satisfies: the
/// ray is dropped only when its direction is too short to normalize;
/// otherwise the surface always scatters from the hit point, attenuating
/// by opaque white.
pub open spec fn dielectric_scatter_ok(idx: int, r_in: Rayi, rec: HitRecordi, u: int, res: Option<
    Scatter,
>) -> bool {
    match res {
        None => len_sq_v(r_in.dir) == 0,
        Some(sc) => {
            let ri = dielectric_ratio(idx, rec.front_face);
            let ud = unit_v(r_in.dir);
            &&& len_sq_v(r_in.dir) > 0
            &&& sc.attenuation@ == v3(SCALE as int, SCALE as int, SCALE as int)
            &&& sc.scattered@.orig == rec.p
            &&& sc.scattered@.dir == dielectric_dir(ud, rec.normal, ri, u)
        },
    }
}

/// Total internal reflection is deterministic: whenever `ri * sin > 1`,
/// the outgoing direction is the reflection, whatever was drawn.
pub proof fn lemma_total_internal_reflection(ud: Vec3i, n: Vec3i, ri: int, u: int)
    requires
        fmul(ri, dielectric_sin(refract_cos(ud, n))) > SCALE,
    ensures
        dielectric_dir(ud, n, ri, u) == reflect_v(ud, n),
{
}

/// Near normal incidence, with a ratio of at most one, there is no total
/// internal reflection: the sine stays tiny, so the surface refracts
/// whenever the draw reaches the Schlick reflectance.
pub proof fn lemma_normal_incidence_refracts(ud: Vec3i, n: Vec3i, ri: int, u: int)
    requires
        0 <= ri <= SCALE,
        SCALE - 16 <= refract_cos(ud, n),
        schlick(refract_cos(ud, n), ri) <= u,
    ensures
        dielectric_dir(ud, n, ri, u) == refract_v(ud, n, ri),
{
    let s = SCALE as int;
    let cos = refract_cos(ud, n);
    assert(cos <= s);
    // the squared cosine rounds to within 33 steps of one
    assert((s - 16) * (s - 16) <= cos * cos <= s * s) by (nonlinear_arith)
        requires
            s - 16 <= cos <= s,
            s == 1048576,
    ;
    crate::fixed::lemma_tdiv_mul_close(cos * cos, s);
    let q = tdiv(cos * cos, s);
    assert(q > s - 33) by (nonlinear_arith)
        requires
            q * s > cos * cos - s,
            cos * cos >= (s - 16) * (s - 16),
            s == 1048576,
    ;
    assert(q <= s) by (nonlinear_arith)
        requires
            q * s <= cos * cos,
            cos * cos <= s * s,
            s > 0,
    ;
    assert(fmul(cos, cos) == q);
    // so the sine is at most a few thousand steps, far from forcing
    // total internal reflection
    let k = fsub(s, q);
    assert(0 <= k <= 32);
    let sin = dielectric_sin(cos);
    assert(sin == sqrt_floor(k * s));
    assert(k * s <= 33554432) by (nonlinear_arith)
        requires
            0 <= k <= 32,
            s == 1048576,
    ;
    assert(k * s >= 0) by (nonlinear_arith)
        requires
            k >= 0,
            s > 0,
    ;
    crate::fixed::lemma_sqrt_floor_bounds(k * s);
    if sin >= 5793 {
        assert(sin * sin >= 5793 * 5793) by (nonlinear_arith)
            requires
                sin >= 5793,
        ;
    }
    crate::fixed::lemma_fmul_le_factor(ri, sin);
    assert(fmul(ri, sin) <= SCALE);
}

impl Dielectric {
    /// Schlick's reflectance for a nonnegative effective ratio.
    fn reflectance(&self, cosine: i64, refraction_ratio: i64) -> (r: i64)
        requires
            refraction_ratio >= 0,
        ensures
            r == schlick(cosine as int, refraction_ratio as int),
    {
        let denom = fx_add(SCALE, refraction_ratio);
        let r0 = fx_div(fx_sub(SCALE, refraction_ratio), denom);
        let r0sq = fx_mul(r0, r0);
        let p = fx_sub(SCALE, cosine);
        let p5 = fx_mul(fx_mul(fx_mul(fx_mul(p, p), p), p), p);
        fx_add(r0sq, fx_mul(fx_sub(SCALE, r0sq), p5))
    }

    /// The deterministic part of the dielectric scatter, taking the
    /// uniform draw as an argument.
    pub fn scatter_with(&self, r_in: Ray, rec: &HitRecord, u: i64) -> (res: Option<Scatter>)
        ensures
            dielectric_scatter_ok(self@, r_in@, rec@, u as int, res),
    {
        let dir_in = r_in.direction();
        if dir_in.length_squared() == 0 {
            // a degenerate ray cannot be normalized: drop it
            return None;
        }
        proof {
            crate::vec3::lemma_positive_len(dir_in@);
            use_type_invariant(&*self);
        }
        let attenuation = Vec3::new(SCALE, SCALE, SCALE);
        let ri = if rec.front_face() {
            fx_div(SCALE, self.refraction_index)
        } else {
            self.refraction_index
        };
        proof {
            lemma_ratio_nonneg(self@, rec@.front_face);
        }
        let unit_direction = unit_vector(dir_in);

        let d = dot(unit_direction.neg(), rec.normal());
        let cos_theta = if d > SCALE {
            SCALE
        } else {
            d
        };
        let sin_theta = fx_sqrt(fx_abs(fx_sub(SCALE, fx_mul(cos_theta, cos_theta))));

        let cannot_refract = fx_mul(ri, sin_theta) > SCALE;

        let direction = if cannot_refract || self.reflectance(cos_theta, ri) > u {
            reflect(unit_direction, rec.normal())
        } else {
            refract(unit_direction, rec.normal(), ri)
        };
        Some(Scatter { attenuation, scattered: Ray::new(rec.p(), direction) })
    }

    /// Dielectric scatter with a fresh uniform draw deciding between
    /// reflection and refraction.
    pub fn scatter(&self, r_in: Ray, rec: &HitRecord, rng: &mut RandomSource) -> (res: Option<
        Scatter,
    >)
        ensures
            exists|u: int| 0 <= u < SCALE && dielectric_scatter_ok(self@, r_in@, rec@, u, res),
    {
        let u = rng.random_frac();
        let res = self.scatter_with(r_in, rec, u);
        proof {
            assert(0 <= u < SCALE && dielectric_scatter_ok(self@, r_in@, rec@, u as int, res));
        }
        res
    }
}

/// The effective ratio is never negative: a positive stored index stays
/// positive, and its reciprocal cannot go below zero.
proof fn lemma_ratio_nonneg(idx: int, front_face: bool)
    requires
        idx > 0,
    ensures
        dielectric_ratio(idx, front_face) >= 0,
{
    if front_face {
        assert(tdiv(SCALE as int * SCALE as int, idx) >= 0) by (nonlinear_arith)
            requires
                idx > 0,
                SCALE == 1048576,
        ;
    }
}

/// Whether a material's attenuation never leaves `[0, 1]`: diffuse and
/// metal surfaces attenuate by their albedo, a dielectric by opaque white.
pub open spec fn attenuation_in_range(m: Material) -> bool {
    match m {
        Material::Lambertian(l) => crate::vec3::color_in_range(l@),
        Material::Metal(mt) => crate::vec3::color_in_range(mt@.albedo),
        Material::Dielectric(_) => true,
    }
}

/// What any outcome of a scatter by any material satisfies, for some
/// sample of its randomness.
pub open spec fn scatter_ok_any(m: Material, r_in: Rayi, rec: HitRecordi, res: Option<
    Scatter,
>) -> bool {
    match m {
        Material::Lambertian(l) => exists|u: Vec3i|
            unit_sample(u) && lambertian_scatter_ok(l@, rec, u, res),
        Material::Metal(mt) => exists|u: Vec3i|
            unit_sample(u) && metal_scatter_ok(mt@, r_in, rec, u, res),
        Material::Dielectric(d) => exists|u: int|
            0 <= u < SCALE && dielectric_scatter_ok(d@, r_in, rec, u, res),
    }
}

impl Material {
    /// Ask the surface struck by `r_in` how the ray continues: an
    /// attenuation and a scattered ray, or absorption.
    pub fn scatter(&self, r_in: Ray, rec: &HitRecord, rng: &mut RandomSource) -> (res: Option<
        Scatter,
    >)
        ensures
            scatter_ok_any(*self, r_in@, rec@, res),
    {
        match self {
            Material::Lambertian(l) => l.scatter(r_in, rec, rng),
            Material::Metal(m) => m.scatter(r_in, rec, rng),
            Material::Dielectric(d) => d.scatter(r_in, rec, rng),
        }
    }
}

} // verus!
