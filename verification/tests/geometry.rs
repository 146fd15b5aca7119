use raytracer::fixed::{FX_MAX, SCALE};
use raytracer::hittable::Hittable;
use raytracer::hittable_list::HittableList;
use raytracer::interval::Interval;
use raytracer::material::{Lambertian, Material};
use raytracer::ray::Ray;
use raytracer::sphere::Sphere;
use raytracer::vec3::Vec3;

fn gray() -> Material {
    Material::Lambertian(Lambertian::new(Vec3::new(SCALE / 2, SCALE / 2, SCALE / 2)))
}

#[test]
fn ray_at_walks_along_the_direction() {
    let r = Ray::new(Vec3::new(SCALE, 0, 0), Vec3::new(0, 0, -SCALE));
    assert_eq!(r.at(2 * SCALE), Vec3::new(SCALE, 0, -2 * SCALE));
    assert_eq!(r.at(0), Vec3::new(SCALE, 0, 0));
}

#[test]
fn ray_aimed_at_center_hits_at_surface_distance() {
    // sphere three units away along -z, radius one: the hit is at t = 2
    let s = Sphere::new(Vec3::new(0, 0, -3 * SCALE), SCALE, gray());
    let r = Ray::new(Vec3::new(0, 0, 0), Vec3::new(0, 0, -SCALE));
    let rec = s.hit(r, Interval::new(0, FX_MAX)).expect("must hit");
    assert_eq!(rec.t(), 2 * SCALE);
    assert_eq!(rec.p(), Vec3::new(0, 0, -2 * SCALE));
    // the normal points back along the ray, parallel to p - center
    assert_eq!(rec.normal(), Vec3::new(0, 0, SCALE));
    assert!(rec.front_face());
}

#[test]
fn ray_offset_beyond_radius_misses() {
    let s = Sphere::new(Vec3::new(0, 0, -3 * SCALE), SCALE, gray());
    let r = Ray::new(Vec3::new(0, 2 * SCALE, 0), Vec3::new(0, 0, -SCALE));
    assert!(s.hit(r, Interval::new(0, FX_MAX)).is_none());
}

#[test]
fn hit_outside_the_interval_is_rejected() {
    let s = Sphere::new(Vec3::new(0, 0, -3 * SCALE), SCALE, gray());
    let r = Ray::new(Vec3::new(0, 0, 0), Vec3::new(0, 0, -SCALE));
    // both roots (t = 2 and t = 4) lie beyond the upper bound
    assert!(s.hit(r, Interval::new(0, SCALE)).is_none());
    // from inside the sphere the near root is behind the lower bound,
    // so the far root is taken
    let inside = Ray::new(Vec3::new(0, 0, -3 * SCALE), Vec3::new(0, 0, -SCALE));
    let rec = s.hit(inside, Interval::new(0, FX_MAX)).expect("exits the far side");
    assert_eq!(rec.t(), SCALE);
    assert!(!rec.front_face());
}

#[test]
fn degenerate_spheres_never_hit() {
    let s = Sphere::new(Vec3::new(0, 0, -3 * SCALE), -SCALE, gray());
    let r = Ray::new(Vec3::new(0, 0, 0), Vec3::new(0, 0, -SCALE));
    assert!(s.hit(r, Interval::new(0, FX_MAX)).is_none());
}

#[test]
fn list_returns_the_closest_hit() {
    let mut world = HittableList::new();
    world.add(Hittable::Sphere(Sphere::new(Vec3::new(0, 0, -6 * SCALE), SCALE, gray())));
    world.add(Hittable::Sphere(Sphere::new(Vec3::new(0, 0, -3 * SCALE), SCALE, gray())));
    let r = Ray::new(Vec3::new(0, 0, 0), Vec3::new(0, 0, -SCALE));
    let rec = world.hit(r, Interval::new(0, FX_MAX)).expect("must hit");
    assert_eq!(rec.t(), 2 * SCALE);

    // insertion order does not matter
    let mut world2 = HittableList::new();
    world2.add(Hittable::Sphere(Sphere::new(Vec3::new(0, 0, -3 * SCALE), SCALE, gray())));
    world2.add(Hittable::Sphere(Sphere::new(Vec3::new(0, 0, -6 * SCALE), SCALE, gray())));
    let rec2 = world2.hit(r, Interval::new(0, FX_MAX)).expect("must hit");
    assert_eq!(rec2.t(), rec.t());
}

#[test]
fn empty_list_misses_and_clear_empties() {
    let mut world = HittableList::new();
    let r = Ray::new(Vec3::new(0, 0, 0), Vec3::new(0, 0, -SCALE));
    assert!(world.hit(r, Interval::new(0, FX_MAX)).is_none());
    world.add(Hittable::Sphere(Sphere::new(Vec3::new(0, 0, -3 * SCALE), SCALE, gray())));
    assert!(world.hit(r, Interval::new(0, FX_MAX)).is_some());
    world.clear();
    assert!(world.hit(r, Interval::new(0, FX_MAX)).is_none());
}

#[test]
fn interval_behaviour() {
    let iv = Interval::new(0, 10 * SCALE);
    assert!(iv.contains(0) && iv.contains(10 * SCALE) && iv.contains(SCALE));
    assert!(!iv.contains(-1) && !iv.contains(10 * SCALE + 1));
    // open containment rejects both endpoints
    assert!(!iv.surrounds(0) && !iv.surrounds(10 * SCALE));
    assert!(iv.surrounds(1) && iv.surrounds(10 * SCALE - 1));
    assert_eq!(iv.size(), 10 * SCALE);
    assert_eq!(iv.min(), 0);
    assert_eq!(iv.max(), 10 * SCALE);
    // clamping is idempotent
    for x in [-SCALE, 0, 5 * SCALE, 10 * SCALE, 11 * SCALE] {
        let once = iv.clamp(x);
        assert_eq!(iv.clamp(once), once);
    }
    assert_eq!(iv.clamp(-SCALE), 0);
    assert_eq!(iv.clamp(11 * SCALE), 10 * SCALE);
    // the default interval is empty
    let empty = Interval::default();
    assert!(!empty.contains(0) && !empty.contains(FX_MAX) && !empty.contains(-FX_MAX));
}
