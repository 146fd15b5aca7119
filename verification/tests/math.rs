use raytracer::fixed::{from_whole, fx_div, fx_mul, fx_sqrt, to_whole, SCALE};
use raytracer::utils::{degrees_to_radiants, fx_tan, FX_PI};
use raytracer::vec3::{cross, dot, reflect, refract, unit_vector, Vec3};

#[test]
fn fixed_point_products_and_quotients() {
    assert_eq!(from_whole(2), 2 * SCALE);
    assert_eq!(fx_mul(2 * SCALE, 3 * SCALE), 6 * SCALE);
    assert_eq!(fx_div(SCALE, 2 * SCALE), SCALE / 2);
    assert_eq!(fx_mul(-2 * SCALE, 3 * SCALE), -6 * SCALE);
    assert_eq!(to_whole(7 * SCALE + SCALE / 2), 7);
    assert_eq!(to_whole(-7 * SCALE - SCALE / 2), -7);
}

#[test]
fn fixed_point_square_roots() {
    assert_eq!(fx_sqrt(4 * SCALE), 2 * SCALE);
    assert_eq!(fx_sqrt(9 * SCALE), 3 * SCALE);
    assert_eq!(fx_sqrt(0), 0);
}

#[test]
fn unit_vector_has_unit_length() {
    // a 3-4-5 triangle: the length is exact, the normalization rounds
    let v = Vec3::new(3 * SCALE, 4 * SCALE, 0);
    assert_eq!(v.length(), 5 * SCALE);
    let u = unit_vector(v);
    assert!((u.length() - SCALE).abs() <= 16);

    let w = unit_vector(Vec3::new(SCALE, SCALE, SCALE));
    assert!((w.length() - SCALE).abs() <= 16);

    // already unit: stays unit
    let a = unit_vector(Vec3::new(0, 0, -SCALE));
    assert_eq!(a.length(), SCALE);
}

#[test]
fn reflection_flips_the_normal_component() {
    let v = Vec3::new(SCALE, -SCALE, 0);
    let n = Vec3::new(0, SCALE, 0);
    let r = reflect(v, n);
    assert_eq!(r, Vec3::new(SCALE, SCALE, 0));
    assert_eq!(dot(r, n), -dot(v, n));
}

#[test]
fn cross_product_of_axes() {
    let x = Vec3::new(SCALE, 0, 0);
    let y = Vec3::new(0, SCALE, 0);
    assert_eq!(cross(x, y), Vec3::new(0, 0, SCALE));
    assert_eq!(cross(y, x), Vec3::new(0, 0, -SCALE));
}

#[test]
fn refraction_straight_through_at_normal_incidence() {
    let uv = Vec3::new(0, 0, -SCALE);
    let n = Vec3::new(0, 0, SCALE);
    // matched indices: the direction is unchanged
    assert_eq!(refract(uv, n, SCALE), Vec3::new(0, 0, -SCALE));
}

#[test]
fn near_zero_only_for_the_zero_vector() {
    assert!(Vec3::new(0, 0, 0).near_zero());
    assert!(!Vec3::new(1, 0, 0).near_zero());
    assert!(!Vec3::new(0, -1, 0).near_zero());
}

#[test]
fn degrees_convert_to_radians() {
    assert_eq!(degrees_to_radiants(180 * SCALE), FX_PI);
    assert_eq!(degrees_to_radiants(0), 0);
    let quarter = degrees_to_radiants(90 * SCALE);
    assert!((quarter - FX_PI / 2).abs() <= 2);
}

#[test]
fn tangent_of_forty_five_degrees_is_one() {
    let t = fx_tan(degrees_to_radiants(45 * SCALE));
    assert!((t - SCALE).abs() <= 300, "tan(45 deg) = {t}");
}
