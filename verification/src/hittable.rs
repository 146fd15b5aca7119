use vstd::prelude::*;

use crate::interval::{Interval, Intervali};
use crate::material::Material;
use crate::ray::{Ray, Rayi};
use crate::vec3::{dot_v, neg_v, Point3, Vec3, Vec3i};

verus! {

/// The mathematical value of a hit record.
pub struct HitRecordi {
    pub p: Vec3i,
    pub normal: Vec3i,
    pub mat: Material,
    pub t: int,
    pub front_face: bool,
}

/// Where a ray met a surface: the point, the normal oriented against the
/// ray, the parameter, which side was struck, and the surface's material.
#[derive(Clone, Copy)]
pub struct HitRecord {
    p: Point3,
    normal: Vec3,
    mat: Material,
    t: i64,
    front_face: bool,
}

impl View for HitRecord {
    type V = HitRecordi;

    closed spec fn view(&self) -> HitRecordi {
        HitRecordi {
            p: self.p@,
            normal: self.normal@,
            mat: self.mat,
            t: self.t as int,
            front_face: self.front_face,
        }
    }
}

impl HitRecord {
    pub fn p(&self) -> (r: Point3)
        ensures
            r@ == self@.p,
    {
        self.p
    }

    pub fn set_p(&mut self, input: Point3)
        ensures
            final(self)@ == (HitRecordi { p: input@, ..old(self)@ }),
    {
        self.p = input;
    }

    pub fn t(&self) -> (r: i64)
        ensures
            r == self@.t,
    {
        self.t
    }

    pub fn set_t(&mut self, input: i64)
        ensures
            final(self)@ == (HitRecordi { t: input as int, ..old(self)@ }),
    {
        self.t = input;
    }

    pub fn normal(&self) -> (r: Vec3)
        ensures
            r@ == self@.normal,
    {
        self.normal
    }

    pub fn mat(&self) -> (r: Material)
        ensures
            r == self@.mat,
    {
        self.mat
    }

    pub fn set_mat(&mut self, input: Material)
        ensures
            final(self)@ == (HitRecordi { mat: input, ..old(self)@ }),
    {
        self.mat = input;
    }

    pub fn front_face(&self) -> (r: bool)
        ensures
            r == self@.front_face,
    {
        self.front_face
    }

    /// Store the normal oriented against the incoming ray, remembering on
    /// which side the ray struck.  `outward_normal` is the geometric
    /// outward normal of the surface.
    pub fn set_face_normal(&mut self, r: Ray, outward_normal: Vec3)
        ensures
            final(self)@ == (HitRecordi {
                front_face: dot_v(r@.dir, outward_normal@) < 0,
                normal: if dot_v(r@.dir, outward_normal@) < 0 {
                    outward_normal@
                } else {
                    neg_v(outward_normal@)
                },
                ..old(self)@
            }),
    {
        self.front_face = crate::vec3::dot(r.direction(), outward_normal) < 0;
        if self.front_face {
            self.normal = outward_normal;
        } else {
            self.normal = outward_normal.neg();
        }
    }
}

/// Anything a ray can intersect.  Dispatch is by tagged variant; the
/// sphere is the one primitive in scope.
#[derive(Clone, Copy)]
pub enum Hittable {
    Sphere(crate::sphere::Sphere),
}

/// The accepted hit parameter of an object, if any.
pub open spec fn hittable_hit_t(h: Hittable, r: Rayi, ti: Intervali) -> Option<int> {
    match h {
        Hittable::Sphere(s) => crate::sphere::sphere_hit_t(s@, r, ti),
    }
}

/// The material an object scatters with.
pub open spec fn hittable_mat(h: Hittable) -> Material {
    match h {
        Hittable::Sphere(s) => s@.mat,
    }
}

/// What a correct hit record for parameter `t` on object `h` contains.
pub open spec fn hittable_rec_ok(h: Hittable, r: Rayi, rec: HitRecordi, t: int) -> bool {
    match h {
        Hittable::Sphere(s) => crate::sphere::sphere_rec_ok(s@, r, rec, t),
    }
}

impl Hittable {
    /// Intersect a ray with this object over the open parameter interval.
    pub fn hit(&self, r: Ray, ray_t: Interval) -> (res: Option<HitRecord>)
        ensures
            match res {
                None => hittable_hit_t(*self, r@, ray_t@) is None,
                Some(rec) => {
                    &&& hittable_hit_t(*self, r@, ray_t@) == Some(rec@.t)
                    &&& hittable_rec_ok(*self, r@, rec@, rec@.t)
                },
            },
    {
        match self {
            Hittable::Sphere(s) => s.hit(r, ray_t),
        }
    }
}

impl Default for HitRecord {
    fn default() -> (r: Self)
        ensures
            r@.p == crate::vec3::zero_v(),
            r@.normal == crate::vec3::zero_v(),
            r@.mat matches Material::Lambertian(l) && l@ == crate::vec3::zero_v(),
            r@.t == 0,
            r@.front_face == false,
    {
        HitRecord {
            p: Vec3::default(),
            normal: Vec3::default(),
            mat: Material::Lambertian(crate::material::Lambertian::default()),
            t: 0,
            front_face: false,
        }
    }
}

} // verus!
