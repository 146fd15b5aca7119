use raytracer::fixed::{FX_MAX, SCALE};
use raytracer::hittable::HitRecord;
use raytracer::interval::Interval;
use raytracer::material::{Dielectric, Lambertian, Material, Metal};
use raytracer::ray::Ray;
use raytracer::rng::RandomSource;
use raytracer::sphere::Sphere;
use raytracer::vec3::Vec3;

/// A record for a ray going along `dir` striking a surface with geometric
/// outward normal `outward` at point `p`.
fn record(p: Vec3, dir: Vec3, outward: Vec3) -> HitRecord {
    let mut rec = HitRecord::default();
    rec.set_p(p);
    rec.set_t(SCALE);
    rec.set_face_normal(Ray::new(Vec3::new(0, 0, 0), dir), outward);
    rec
}

#[test]
fn lambertian_attenuation_is_the_albedo() {
    let albedo = Vec3::new(SCALE / 2, SCALE / 4, SCALE / 8);
    let lam = Lambertian::new(albedo);
    let rec = record(Vec3::new(0, 0, -SCALE), Vec3::new(0, 0, -SCALE), Vec3::new(0, 0, SCALE));
    let mut rng = RandomSource::from_seed(7);
    for _ in 0..50 {
        let sc = lam
            .scatter(Ray::new(Vec3::new(0, 0, 0), Vec3::new(0, 0, -SCALE)), &rec, &mut rng)
            .expect("lambertian always scatters");
        assert_eq!(sc.attenuation, albedo);
        assert!(!sc.scattered.direction().near_zero());
        assert_eq!(sc.scattered.origin(), rec.p());
    }
}

#[test]
fn lambertian_falls_back_to_the_normal() {
    let lam = Lambertian::new(Vec3::new(SCALE, SCALE, SCALE));
    let rec = record(Vec3::new(0, 0, -SCALE), Vec3::new(0, 0, -SCALE), Vec3::new(0, 0, SCALE));
    // a sample exactly opposite the normal would give the zero direction
    let sc = lam.scatter_with(&rec, Vec3::new(0, 0, -SCALE)).expect("always scatters");
    assert_eq!(sc.scattered.direction(), rec.normal());
    assert!(!sc.scattered.direction().near_zero());
}

#[test]
fn metal_reflects_and_keeps_its_albedo() {
    let albedo = Vec3::new(SCALE, SCALE / 2, SCALE / 2);
    let metal = Metal::new(albedo, 0);
    let r_in = Ray::new(Vec3::new(0, 0, 0), Vec3::new(SCALE, 0, -SCALE));
    let rec = record(Vec3::new(SCALE, 0, -SCALE), r_in.direction(), Vec3::new(0, 0, SCALE));
    let sc = metal.scatter_with(r_in, &rec, Vec3::new(0, 0, 0)).expect("reflects upward");
    assert_eq!(sc.attenuation, albedo);
    // the unit reflection of (1, 0, -1) about +z
    assert_eq!(sc.scattered.direction(), Vec3::new(741455, 0, 741455));
}

#[test]
fn metal_absorbs_rays_fuzzed_into_the_surface() {
    let metal = Metal::new(Vec3::new(SCALE, SCALE, SCALE), SCALE);
    let r_in = Ray::new(Vec3::new(0, 0, 0), Vec3::new(SCALE, 0, -SCALE));
    let rec = record(Vec3::new(SCALE, 0, -SCALE), r_in.direction(), Vec3::new(0, 0, SCALE));
    // a full-strength perturbation straight down drives the ray below the
    // surface: absorbed
    assert!(metal.scatter_with(r_in, &rec, Vec3::new(0, 0, -SCALE)).is_none());
}

#[test]
fn metal_fuzz_is_clamped_into_the_unit_range() {
    let metal = Metal::new(Vec3::new(SCALE, SCALE, SCALE), 5 * SCALE);
    assert_eq!(metal.fuzz(), SCALE);
    let metal2 = Metal::new(Vec3::new(SCALE, SCALE, SCALE), SCALE / 4);
    assert_eq!(metal2.fuzz(), SCALE / 4);
    let metal3 = Metal::new(Vec3::new(SCALE, SCALE, SCALE), -SCALE);
    assert_eq!(metal3.fuzz(), 0);
}

#[test]
fn dielectric_refracts_at_normal_incidence() {
    // entering glass head on: no total internal reflection is possible,
    // and a draw at least the reflectance refracts straight through
    let glass = Dielectric::new(3 * SCALE / 2);
    let r_in = Ray::new(Vec3::new(0, 0, 0), Vec3::new(0, 0, -SCALE));
    let rec = record(Vec3::new(0, 0, -SCALE), r_in.direction(), Vec3::new(0, 0, SCALE));
    assert!(rec.front_face());
    let sc = glass.scatter_with(r_in, &rec, SCALE - 1).expect("always scatters");
    assert_eq!(sc.scattered.direction(), Vec3::new(0, 0, -SCALE));
    // opaque white attenuation
    assert_eq!(sc.attenuation, Vec3::new(SCALE, SCALE, SCALE));

    // a draw below the reflectance reflects instead
    let sc2 = glass.scatter_with(r_in, &rec, 0).expect("always scatters");
    assert_eq!(sc2.scattered.direction(), Vec3::new(0, 0, SCALE));
}

#[test]
fn dielectric_grazing_exit_is_total_internal_reflection() {
    // leaving a dense medium at forty-five degrees: ratio * sin > 1, so
    // the ray reflects whatever was drawn
    let dense = Dielectric::new(10 * SCALE);
    let r_in = Ray::new(Vec3::new(0, 0, 0), Vec3::new(SCALE, 0, SCALE));
    let rec = record(Vec3::new(SCALE, 0, SCALE), r_in.direction(), Vec3::new(0, 0, SCALE));
    assert!(!rec.front_face());
    let expected = Vec3::new(741455, 0, -741455);
    assert_eq!(
        dense.scatter_with(r_in, &rec, 0).expect("always scatters").scattered.direction(),
        expected,
    );
    assert_eq!(
        dense.scatter_with(r_in, &rec, SCALE - 1).expect("always scatters").scattered.direction(),
        expected,
    );
}

#[test]
fn material_dispatch_matches_the_variant() {
    let albedo = Vec3::new(SCALE / 2, SCALE / 2, SCALE / 2);
    let mat = Material::Lambertian(Lambertian::new(albedo));
    let rec = record(Vec3::new(0, 0, -SCALE), Vec3::new(0, 0, -SCALE), Vec3::new(0, 0, SCALE));
    let mut rng = RandomSource::from_seed(11);
    let sc = mat
        .scatter(Ray::new(Vec3::new(0, 0, 0), Vec3::new(0, 0, -SCALE)), &rec, &mut rng)
        .expect("lambertian always scatters");
    assert_eq!(sc.attenuation, albedo);
}

#[test]
fn hit_record_carries_the_sphere_material() {
    let albedo = Vec3::new(SCALE / 4, SCALE / 2, SCALE);
    let mat = Material::Lambertian(Lambertian::new(albedo));
    let s = Sphere::new(Vec3::new(0, 0, -3 * SCALE), SCALE, mat);
    let r = Ray::new(Vec3::new(0, 0, 0), Vec3::new(0, 0, -SCALE));
    let rec = s.hit(r, Interval::new(0, FX_MAX)).expect("must hit");
    match rec.mat() {
        Material::Lambertian(l) => assert_eq!(l.albedo(), albedo),
        _ => panic!("wrong material"),
    }
}
