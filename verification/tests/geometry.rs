use raytrace::fixed::FX_ONE;
use raytrace::hittable::Hittable;
use raytrace::hittable_list::{initialize_world, HittableList};
use raytrace::interval::Interval;
use raytrace::material::{Dielectric, Lambertian, Material, Metal};
use raytrace::ray::{Ray, T_MAX};
use raytrace::sphere::Sphere;
use raytrace::vec3::Vec3;
use raytrace::ConfigError;

const F: i64 = FX_ONE;

fn gray() -> Material {
    Material::Lambertian(Lambertian::new(Vec3::new(F / 2, F / 2, F / 2)))
}

#[test]
fn interval_surrounds_is_open() {
    let iv = Interval::new(0, 10);
    assert!(iv.surrounds(5));
    assert!(!iv.surrounds(0));
    assert!(!iv.surrounds(10));
    assert!(!iv.surrounds(-1));
}

#[test]
fn sphere_new_clamps_negative_radius() {
    let s = Sphere::new(Vec3::new(0, 0, 0), -5, gray());
    assert_eq!(s.radius, 0);
}

#[test]
fn head_on_hit_has_exact_parameter_and_negated_normal() {
    // A ray aimed straight at the center from five units away, radius one:
    // exactly one record with t = distance - radius and the normal opposite
    // the ray direction.
    let s = Sphere::new(Vec3::new(0, 0, -5 * F), F, gray());
    let ray = Ray::new(Vec3::new(0, 0, 0), Vec3::new(0, 0, -F));
    let hit = s.hit(&ray, Interval::new(64, T_MAX)).expect("head-on ray must hit");
    assert_eq!(hit.t, 4 * F);
    assert_eq!(hit.point, Vec3::new(0, 0, -4 * F));
    assert_eq!(hit.normal, Vec3::new(0, 0, F));
    assert!(hit.front_face);
}

#[test]
fn zero_radius_sphere_never_hits() {
    let s = Sphere::new(Vec3::new(0, 0, -5 * F), 0, gray());
    let ray = Ray::new(Vec3::new(0, 0, 0), Vec3::new(0, 0, -F));
    assert!(s.hit(&ray, Interval::new(64, T_MAX)).is_none());
}

#[test]
fn miss_is_reported_as_none() {
    let s = Sphere::new(Vec3::new(0, 10 * F, -5 * F), F, gray());
    let ray = Ray::new(Vec3::new(0, 0, 0), Vec3::new(0, 0, -F));
    assert!(s.hit(&ray, Interval::new(64, T_MAX)).is_none());
}

#[test]
fn tangent_ray_yields_single_root() {
    // The ray line passes at a lateral distance of exactly one radius: the
    // discriminant is exactly zero and the single root is the along-ray
    // separation.
    let s = Sphere::new(Vec3::new(3 * F, F, 0), F, gray());
    let ray = Ray::new(Vec3::new(0, 0, 0), Vec3::new(F, 0, 0));
    let hit = s.hit(&ray, Interval::new(64, T_MAX)).expect("tangent ray must hit");
    assert_eq!(hit.t, 3 * F);
    assert_eq!(hit.point, Vec3::new(3 * F, 0, 0));
}

#[test]
fn nearest_hit_of_overlapping_spheres() {
    // Two overlapping spheres along the ray: the record's t equals the
    // smaller of the two individual intersection parameters.
    let far = Sphere::new(Vec3::new(0, 0, -5 * F), F, gray());
    let near = Sphere::new(Vec3::new(0, 0, -4 * F), F, gray());
    let ray = Ray::new(Vec3::new(0, 0, 0), Vec3::new(0, 0, -F));

    let t_far = far.hit(&ray, Interval::new(64, T_MAX)).unwrap().t;
    let t_near = near.hit(&ray, Interval::new(64, T_MAX)).unwrap().t;
    assert_eq!(t_far, 4 * F);
    assert_eq!(t_near, 3 * F);

    let mut world = HittableList::new();
    world.push(Hittable::Sphere(far));
    world.push(Hittable::Sphere(near));
    let hit = world.hit(&ray, Interval::new(64, T_MAX)).expect("must hit");
    assert_eq!(hit.t, t_near.min(t_far));

    // The same nearest hit comes out whatever the insertion order.
    let mut world2 = HittableList::new();
    world2.push(Hittable::Sphere(near));
    world2.push(Hittable::Sphere(far));
    let hit2 = world2.hit(&ray, Interval::new(64, T_MAX)).expect("must hit");
    assert_eq!(hit2.t, hit.t);
}

#[test]
fn empty_scene_reports_no_hit() {
    let world = HittableList::new();
    let ray = Ray::new(Vec3::new(0, 0, 0), Vec3::new(0, 0, -F));
    assert!(world.hit(&ray, Interval::new(64, T_MAX)).is_none());
}

#[test]
fn metal_new_clamps_fuzz() {
    let m = Metal::new(Vec3::new(F, F, F), -5);
    assert_eq!(m.fuzz, 0);
    let m2 = Metal::new(Vec3::new(F, F, F), 3 * F);
    assert_eq!(m2.fuzz, F);
    let m3 = Metal::new(Vec3::new(F, F, F), F / 4);
    assert_eq!(m3.fuzz, F / 4);
}

#[test]
fn dielectric_new_rejects_bad_indices() {
    assert_eq!(
        Dielectric::new(0).unwrap_err(),
        ConfigError::NonPositiveRefractionIndex
    );
    assert_eq!(
        Dielectric::new(-3).unwrap_err(),
        ConfigError::NonPositiveRefractionIndex
    );
    assert_eq!(
        Dielectric::new(100).unwrap_err(),
        ConfigError::ParameterOutOfRange
    );
    let d = Dielectric::new(98304).unwrap();
    assert_eq!(d.refraction_index, 98304);
}

#[test]
fn schlick_reflectance_at_normal_incidence() {
    // cos = 1: the approximation collapses to r0 = ((1-n)/(1+n))^2.
    // For n = 1.5 that is 0.04, i.e. 2621 in fixed point (within rounding).
    let r = Dielectric::reflectance(F, 98304);
    assert!((r - 2621).abs() <= 16, "r = {}", r);
}

#[test]
fn dielectric_scatter_keeps_white_attenuation() {
    let s = Sphere::new(
        Vec3::new(0, 0, -5 * F),
        F,
        Material::Dielectric(Dielectric::new(98304).unwrap()),
    );
    let ray = Ray::new(Vec3::new(0, 0, 0), Vec3::new(0, 0, -F));
    let hit = s.hit(&ray, Interval::new(64, T_MAX)).expect("must hit");
    let scatter = hit.scatter_result.expect("dielectric always scatters");
    assert_eq!(scatter.attenuation, Vec3::new(F, F, F));
    assert_eq!(scatter.scattered.origin, hit.point);
}

#[test]
fn lambertian_scatter_carries_albedo_and_leaves_from_hit_point() {
    let albedo = Vec3::new(F / 4, F / 2, F / 8);
    let s = Sphere::new(
        Vec3::new(0, 0, -5 * F),
        F,
        Material::Lambertian(Lambertian::new(albedo)),
    );
    let ray = Ray::new(Vec3::new(0, 0, 0), Vec3::new(0, 0, -F));
    for _ in 0..100 {
        let hit = s.hit(&ray, Interval::new(64, T_MAX)).expect("must hit");
        let scatter = hit.scatter_result.expect("lambertian always scatters");
        assert_eq!(scatter.attenuation, albedo);
        assert_eq!(scatter.scattered.origin, hit.point);
        // The scattered direction points away from the surface, into the
        // hemisphere of the normal, up to the near-zero fallback.
        assert!(scatter.scattered.direction.length_squared() >= 1);
    }
}

#[test]
fn lambertian_scatter_never_points_into_the_surface() {
    let s = Sphere::new(Vec3::new(0, 0, -5 * F), F, gray());
    let ray = Ray::new(Vec3::new(0, 0, 0), Vec3::new(0, 0, -F));
    for _ in 0..1000 {
        let hit = s.hit(&ray, Interval::new(64, T_MAX)).expect("must hit");
        let scatter = hit.scatter_result.expect("lambertian always scatters");
        assert!(raytrace::vec3::dot(scatter.scattered.direction, hit.normal) >= 0);
    }
}

#[test]
fn metal_with_zero_fuzz_is_a_perfect_mirror() {
    let s = Sphere::new(
        Vec3::new(0, 0, -5 * F),
        F,
        Material::Metal(Metal::new(Vec3::new(F, F, F), 0)),
    );
    let ray = Ray::new(Vec3::new(0, 0, 0), Vec3::new(0, 0, -F));
    let hit = s.hit(&ray, Interval::new(64, T_MAX)).expect("must hit");
    let scatter = hit.scatter_result.expect("metal always scatters");
    // Head-on at a unit normal: the mirror reflection of (0,0,-1) is
    // exactly (0,0,1), and renormalization is the identity on it.
    assert_eq!(scatter.scattered.direction, Vec3::new(0, 0, F));
}

#[test]
fn initialize_world_builds_a_valid_scene() {
    let world = initialize_world();
    assert!(world.objects.len() >= 4);
    // The ground sphere is first and huge; the three feature spheres
    // close the list.
    match world.objects[0] {
        Hittable::Sphere(ref s) => {
            assert_eq!(s.radius, 1000 * F);
            assert_eq!(s.center, Vec3::new(0, -1000 * F, 0));
        }
    }
    let n = world.objects.len();
    match world.objects[n - 1] {
        Hittable::Sphere(ref s) => {
            assert_eq!(s.center, Vec3::new(4 * F, F, 0));
            assert!(matches!(s.material, Material::Metal(_)));
        }
    }
    match world.objects[n - 3] {
        Hittable::Sphere(ref s) => {
            assert_eq!(s.center, Vec3::new(0, F, 0));
            assert!(matches!(s.material, Material::Dielectric(_)));
        }
    }
}
