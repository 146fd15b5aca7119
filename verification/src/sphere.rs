use vstd::prelude::*;

use crate::fixed::{fadd, fmul, fsub, fx_add, fx_mul, fx_sqrt, fx_sub, sqrt_floor, SCALE};
use crate::hittable::{HitRecord, HitRecordi};
use crate::interval::{surrounds_s, Interval, Intervali};
use crate::material::Material;
use crate::ray::{ray_at, Ray, Rayi};
use crate::vec3::{div_v, dot, dot_v, len_sq_v, neg_v, sub_v, Point3, Vec3i};

verus! {

/// The mathematical value of a sphere: center, radius and material.
pub struct Spherei {
    pub center: Vec3i,
    pub radius: int,
    pub mat: Material,
}

/// The one primitive: a sphere that a ray can strike.
#[derive(Clone, Copy)]
pub struct Sphere {
    center: Point3,
    radius: i64,
    mat: Material,
}

impl View for Sphere {
    type V = Spherei;

    closed spec fn view(&self) -> Spherei {
        Spherei { center: self.center@, radius: self.radius as int, mat: self.mat }
    }
}

/// The vector from the ray origin to the sphere center.
pub open spec fn sph_oc(s: Spherei, r: Rayi) -> Vec3i {
    sub_v(s.center, r.orig)
}

/// The quadratic coefficient: the squared length of the ray direction.
pub open spec fn sph_a(r: Rayi) -> int {
    len_sq_v(r.dir)
}

/// Half the negated linear coefficient: `dot(direction, oc)`.
pub open spec fn sph_h(s: Spherei, r: Rayi) -> int {
    dot_v(r.dir, sph_oc(s, r))
}

/// The constant coefficient: `|oc|^2 - radius^2`.
pub open spec fn sph_c(s: Spherei, r: Rayi) -> int {
    fsub(len_sq_v(sph_oc(s, r)), fmul(s.radius, s.radius))
}

/// The quadratic discriminant `h^2 - a*c`; negative means the ray's line
/// misses the sphere.
pub open spec fn sph_disc(s: Spherei, r: Rayi) -> int {
    fsub(fmul(sph_h(s, r), sph_h(s, r)), fmul(sph_a(r), sph_c(s, r)))
}

/// The scalar square root of a nonnegative discriminant.
pub open spec fn sph_sqrtd(s: Spherei, r: Rayi) -> int {
    sqrt_floor(sph_disc(s, r) * SCALE)
}

/// The nearer quadratic root `(h - sqrtd) / a`.
pub open spec fn sph_root_near(s: Spherei, r: Rayi) -> int {
    crate::fixed::fdiv(fsub(sph_h(s, r), sph_sqrtd(s, r)), sph_a(r))
}

/// The farther quadratic root `(h + sqrtd) / a`.
pub open spec fn sph_root_far(s: Spherei, r: Rayi) -> int {
    crate::fixed::fdiv(fadd(sph_h(s, r), sph_sqrtd(s, r)), sph_a(r))
}

/// The accepted hit parameter, if any: a degenerate sphere or ray never
/// hits; a negative discriminant misses; otherwise the nearer root is
/// taken when the open interval admits it, else the farther root, else
/// there is no hit.
pub open spec fn sphere_hit_t(s: Spherei, r: Rayi, ti: Intervali) -> Option<int> {
    if s.radius <= 0 || sph_a(r) <= 0 {
        None
    } else if sph_disc(s, r) < 0 {
        None
    } else if surrounds_s(ti, sph_root_near(s, r)) {
        Some(sph_root_near(s, r))
    } else if surrounds_s(ti, sph_root_far(s, r)) {
        Some(sph_root_far(s, r))
    } else {
        None
    }
}

/// The geometric outward normal at a surface point: `(p - center) / radius`.
pub open spec fn sphere_outward(s: Spherei, p: Vec3i) -> Vec3i
    recommends
        s.radius != 0,
{
    div_v(sub_v(p, s.center), s.radius)
}

/// What a correct hit record for parameter `t` on sphere `s` contains.
pub open spec fn sphere_rec_ok(s: Spherei, r: Rayi, rec: HitRecordi, t: int) -> bool {
    let outward = sphere_outward(s, rec.p);
    &&& rec.t == t
    &&& rec.p == ray_at(r, t)
    &&& rec.mat == s.mat
    &&& rec.front_face == (dot_v(r.dir, outward) < 0)
    &&& rec.normal == (if rec.front_face {
        outward
    } else {
        neg_v(outward)
    })
}

impl Sphere {
    /// A negative radius is clamped to zero: the sphere is degenerate but
    /// not an error, and can never be hit.
    pub fn new(center: Point3, radius: i64, mat: Material) -> (r: Self)
        ensures
            r@.center == center@,
            r@.radius == (if radius < 0 {
                0int
            } else {
                radius as int
            }),
            r@.mat == mat,
    {
        Sphere { center, radius: if radius < 0 { 0 } else { radius }, mat }
    }

    /// Ray-sphere intersection over the open parameter interval `ray_t`.
    pub fn hit(&self, r: Ray, ray_t: Interval) -> (res: Option<HitRecord>)
        ensures
            match res {
                None => sphere_hit_t(self@, r@, ray_t@) is None,
                Some(rec) => {
                    &&& sphere_hit_t(self@, r@, ray_t@) == Some(rec@.t)
                    &&& sphere_rec_ok(self@, r@, rec@, rec@.t)
                },
            },
    {
        if self.radius <= 0 {
            return None;
        }
        let oc = self.center.sub(r.origin());
        let a = r.direction().length_squared();
        if a <= 0 {
            return None;
        }
        let h = dot(r.direction(), oc);
        let c = fx_sub(oc.length_squared(), fx_mul(self.radius, self.radius));

        let discriminant = fx_sub(fx_mul(h, h), fx_mul(a, c));
        if discriminant < 0 {
            return None;
        }

        let sqrtd = fx_sqrt(discriminant);

        // Find the nearest root that lies in the acceptable range.
        let mut root = crate::fixed::fx_div(fx_sub(h, sqrtd), a);
        if !ray_t.surrounds(root) {
            root = crate::fixed::fx_div(fx_add(h, sqrtd), a);
            if !ray_t.surrounds(root) {
                return None;
            }
        }

        let mut rec = HitRecord::default();
        rec.set_t(root);
        rec.set_p(r.at(root));
        rec.set_mat(self.mat);
        let outward_normal = rec.p().sub(self.center).div(self.radius);
        rec.set_face_normal(r, outward_normal);

        Some(rec)
    }
}

} // verus!
