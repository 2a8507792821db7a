use raytrace::fixed::FX_ONE;
use raytrace::vec3::{dot, Vec3};

const F: i64 = FX_ONE;

#[test]
fn vector_components_and_accessors() {
    let v = Vec3::new(1, -2, 3);
    assert_eq!(v.x(), 1);
    assert_eq!(v.y(), -2);
    assert_eq!(v.z(), 3);
    let w = Vec3::from_vec3(v);
    assert_eq!(w, v);
}

#[test]
fn componentwise_arithmetic() {
    let a = Vec3::new(F, 2 * F, 3 * F);
    let b = Vec3::new(F, F, -F);
    assert_eq!(a.plus(b), Vec3::new(2 * F, 3 * F, 2 * F));
    assert_eq!(a.minus(b), Vec3::new(0, F, 4 * F));
    assert_eq!(a.neg(), Vec3::new(-F, -2 * F, -3 * F));
    assert_eq!(a.scaled(2 * F), Vec3::new(2 * F, 4 * F, 6 * F));
    assert_eq!(a.comp_mul(b), Vec3::new(F, 2 * F, -3 * F));
    assert_eq!(a.divided(2 * F), Vec3::new(F / 2, F, 3 * F / 2));
}

#[test]
fn dot_product_and_length() {
    let a = Vec3::new(3 * F, 4 * F, 0);
    assert_eq!(a.length_squared(), 25 * F);
    assert_eq!(a.length(), 5 * F);
    assert_eq!(a.dot(a), 25 * F);
    assert_eq!(dot(a, Vec3::new(F, 0, 0)), 3 * F);
}

#[test]
fn unit_vector_of_three_four_five() {
    let a = Vec3::new(3 * F, 4 * F, 0);
    let u = a.unit_vector();
    // 3/5 and 4/5, truncated toward zero at fixed-point scale.
    assert_eq!(u, Vec3::new(39321, 52428, 0));
}

#[test]
fn cross_product_of_axes() {
    let x = Vec3::new(F, 0, 0);
    let y = Vec3::new(0, F, 0);
    assert_eq!(Vec3::cross(x, y), Vec3::new(0, 0, F));
    assert_eq!(Vec3::cross(y, x), Vec3::new(0, 0, -F));
}

#[test]
fn near_zero_threshold() {
    assert!(Vec3::new(0, 0, 0).near_zero());
    assert!(Vec3::new(255, -255, 100).near_zero());
    assert!(!Vec3::new(256, 0, 0).near_zero());
}

#[test]
fn reflect_about_axis_is_exact() {
    let v = Vec3::new(100, 200, -300);
    let n = Vec3::new(0, 0, F);
    let r = Vec3::reflect(v, n);
    assert_eq!(r, Vec3::new(100, 200, 300));
}

#[test]
fn reflecting_twice_through_negated_normal_restores_direction() {
    let v = Vec3::new(12345, -678, 910);
    let n = Vec3::new(0, 0, F);
    let once = Vec3::reflect(v, n);
    let twice = Vec3::reflect(once, n.neg());
    assert_eq!(twice, v);
    // Magnitude is preserved by a single reflection as well.
    assert_eq!(once.length_squared(), v.length_squared());
}

#[test]
fn refract_straight_through_is_unbent() {
    let uv = Vec3::new(0, 0, -F);
    let n = Vec3::new(0, 0, F);
    let r = Vec3::refract(uv, n, F);
    assert_eq!(r, Vec3::new(0, 0, -F));
}

#[test]
fn refract_obeys_snell_within_tolerance() {
    // A 45-degree incidence entering a denser medium with ratio 0.5:
    // sin(theta_2) should be half of sin(theta_1).
    let uv = Vec3::new(F, 0, -F).unit_vector();
    let n = Vec3::new(0, 0, F);
    let ratio = F / 2;
    let r = Vec3::refract(uv, n, ratio);
    let sin_in = uv.x; // the component perpendicular to the normal
    let sin_out_expected = sin_in / 2;
    assert!((r.x - sin_out_expected).abs() <= 64, "r.x = {}", r.x);
    // The refracted direction is unit length within tolerance.
    let n2 = r.length_squared();
    assert!((n2 - F).abs() <= 256, "n2 = {}", n2);
}
