//! An offline path tracer over exact fixed-point arithmetic: scenes of
//! spheres with diffuse, metal and dielectric surfaces, rendered by a
//! camera with anti-aliasing jitter and optional depth of field into a
//! stream of byte color triples.  Every scalar is a signed count of
//! `1 / fixed::SCALE` steps, so each operation has an exact contract.

pub mod camera;
pub mod color;
pub mod fixed;
pub mod hittable;
pub mod hittable_list;
pub mod interval;
pub mod material;
pub mod ray;
pub mod rng;
pub mod sphere;
pub mod utils;
pub mod vec3;
