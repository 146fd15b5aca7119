use vstd::prelude::*;

use crate::vec3::{add_v, scale_v, Point3, Vec3, Vec3i};

verus! {

/// The mathematical value of a ray: origin and direction vectors.
pub struct Rayi {
    pub orig: Vec3i,
    pub dir: Vec3i,
}

/// A half-line through `origin` along `direction`, evaluated by parameter.
#[derive(Clone, Copy, Debug)]
pub struct Ray {
    orig: Point3,
    direction: Vec3,
}

impl View for Ray {
    type V = Rayi;

    closed spec fn view(&self) -> Rayi {
        Rayi { orig: self.orig@, dir: self.direction@ }
    }
}

/// The point reached after travelling `t` along the ray.
pub open spec fn ray_at(r: Rayi, t: int) -> Vec3i {
    add_v(r.orig, scale_v(r.dir, t))
}

impl Ray {
    pub fn new(origin: Point3, dir: Vec3) -> (r: Self)
        ensures
            r@.orig == origin@,
            r@.dir == dir@,
    {
        Ray { orig: origin, direction: dir }
    }

    pub fn origin(&self) -> (r: Point3)
        ensures
            r@ == self@.orig,
    {
        self.orig
    }

    pub fn direction(&self) -> (r: Vec3)
        ensures
            r@ == self@.dir,
    {
        self.direction
    }

    pub fn at(&self, t: i64) -> (r: Point3)
        ensures
            r@ == ray_at(self@, t as int),
    {
        self.orig.add(self.direction.scale(t))
    }
}

impl Default for Ray {
    fn default() -> (r: Self)
        ensures
            r@.orig == crate::vec3::zero_v(),
            r@.dir == crate::vec3::zero_v(),
    {
        Ray { orig: Vec3::default(), direction: Vec3::default() }
    }
}

} // verus!
