use raytrace::camera::Camera;
use raytrace::color::{linear_to_gamma, write_color};
use raytrace::fixed::FX_ONE;
use raytrace::hittable::Hittable;
use raytrace::hittable_list::HittableList;
use raytrace::material::{Lambertian, Material};
use raytrace::ray::Ray;
use raytrace::rng::{random_double, random_double_range};
use raytrace::sphere::Sphere;
use raytrace::vec3::Vec3;
use raytrace::ConfigError;

const F: i64 = FX_ONE;

fn color_line_string(c: Vec3) -> String {
    let mut out: Vec<u8> = Vec::new();
    write_color(&mut out, c);
    String::from_utf8(out).unwrap()
}

#[test]
fn gamma_of_one_is_one_and_negative_clamps() {
    assert_eq!(linear_to_gamma(F), F);
    assert_eq!(linear_to_gamma(0), 0);
    assert_eq!(linear_to_gamma(-17), 0);
    // 0.25 gamma-corrects to 0.5.
    assert_eq!(linear_to_gamma(F / 4), F / 2);
}

#[test]
fn encoding_clamps_and_scales_channels() {
    // 1.0 gamma-corrects to 1.0, clamps to 0.999, scales to byte 255.
    assert_eq!(color_line_string(Vec3::new(F, F, F)), "255 255 255\n");
    // 0.0 maps to byte 0.
    assert_eq!(color_line_string(Vec3::new(0, 0, 0)), "0 0 0\n");
    // 1.5 is out of range and clamps identically to 1.0.
    assert_eq!(
        color_line_string(Vec3::new(3 * F / 2, 3 * F / 2, 3 * F / 2)),
        "255 255 255\n"
    );
    // 0.25 gamma-corrects to 0.5 and lands on byte 128.
    assert_eq!(color_line_string(Vec3::new(F / 4, 0, F)), "128 0 255\n");
}

#[test]
fn ray_color_at_depth_zero_is_black() {
    let mut world = HittableList::new();
    world.push(Hittable::Sphere(Sphere::new(
        Vec3::new(0, 0, -5 * F),
        F,
        Material::Lambertian(Lambertian::new(Vec3::new(F / 2, F / 2, F / 2))),
    )));
    let ray = Ray::new(Vec3::new(0, 0, 0), Vec3::new(0, 0, -F));
    let c = Camera::ray_color(&ray, 0, &world);
    assert_eq!(c, Vec3::new(0, 0, 0));
}

#[test]
fn ray_color_on_miss_is_the_sky_gradient() {
    let world = HittableList::new();
    // Straight up: blend factor 1, pure sky blue (0.5, 0.7, 1.0).
    let up = Ray::new(Vec3::new(0, 0, 0), Vec3::new(0, F, 0));
    assert_eq!(Camera::ray_color(&up, 1, &world), Vec3::new(32768, 45875, F));
    // Horizontal: blend factor 1/2, halfway between white and sky blue.
    let level = Ray::new(Vec3::new(0, 0, 0), Vec3::new(0, 0, -F));
    let c = Camera::ray_color(&level, 1, &world);
    assert_eq!(c, Vec3::new(32768 + 16384, 32768 + 22937, F));
}

#[test]
fn camera_new_rejects_malformed_configuration() {
    let origin = Vec3::new(0, 0, 0);
    let target = Vec3::new(0, 0, -F);
    let vup = Vec3::new(0, F, 0);
    let aspect = 116508; // 16:9
    assert_eq!(
        Camera::new(0, aspect, 1, 1, F, origin, target, vup, 0, F).unwrap_err(),
        ConfigError::ZeroImageDimensions
    );
    assert_eq!(
        Camera::new(400, aspect, 0, 1, F, origin, target, vup, 0, F).unwrap_err(),
        ConfigError::ZeroSamplesPerPixel
    );
    // Look-from equal to look-at leaves no view direction.
    assert_eq!(
        Camera::new(400, aspect, 1, 1, F, origin, origin, vup, 0, F).unwrap_err(),
        ConfigError::ParameterOutOfRange
    );
}

#[test]
fn camera_derives_16_9_image_height() {
    let camera = Camera::new(
        400,
        116508,
        1,
        1,
        F,
        Vec3::new(0, 0, 0),
        Vec3::new(0, 0, -F),
        Vec3::new(0, F, 0),
        0,
        F,
    )
    .expect("camera must build");
    assert_eq!(camera.image_width, 400);
    assert_eq!(camera.image_height, 225);
}

#[test]
fn render_produces_header_and_sky_matching_top_row() {
    // One unit sphere in front of the camera and a huge ground sphere;
    // one sample per pixel, depth one.
    let mut world = HittableList::new();
    world.push(Hittable::Sphere(Sphere::new(
        Vec3::new(0, 0, -F),
        F / 2,
        Material::Lambertian(Lambertian::new(Vec3::new(F / 2, F / 2, F / 2))),
    )));
    world.push(Hittable::Sphere(Sphere::new(
        Vec3::new(0, -6586368, -F), // y = -100.5
        100 * F,
        Material::Lambertian(Lambertian::new(Vec3::new(F / 2, F / 2, F / 2))),
    )));
    let camera = Camera::new(
        400,
        116508,
        1,
        1,
        F, // vfov 90 degrees: tan of the half angle is 1
        Vec3::new(0, 0, 0),
        Vec3::new(0, 0, -F),
        Vec3::new(0, F, 0),
        0,
        F,
    )
    .expect("camera must build");

    let out = camera.render(&world);
    let text = String::from_utf8(out).unwrap();
    let mut lines = text.lines();
    assert_eq!(lines.next(), Some("P3"));
    assert_eq!(lines.next(), Some("400 225"));
    assert_eq!(lines.next(), Some("255"));
    let pixels: Vec<&str> = lines.collect();
    assert_eq!(pixels.len(), 400 * 225);

    // The top row cannot intersect anything: every pixel matches the sky
    // gradient at the pixel's center within a small jitter tolerance.
    for i in [0usize, 100, 200, 399] {
        let parts: Vec<i64> = pixels[i]
            .split(' ')
            .map(|p| p.parse::<i64>().unwrap())
            .collect();
        assert_eq!(parts.len(), 3);

        let center_dir = camera
            .pixel00_loc
            .plus(camera.pixel_delta_u.scaled((i as i64) * F))
            .plus(camera.pixel_delta_v.scaled(0))
            .minus(camera.center);
        let expected = Camera::ray_color(&Ray::new(camera.center, center_dir), 1, &HittableList::new());
        let mut line: Vec<u8> = Vec::new();
        write_color(&mut line, expected);
        let etext = String::from_utf8(line).unwrap();
        let eparts: Vec<i64> = etext
            .trim_end()
            .split(' ')
            .map(|p| p.parse::<i64>().unwrap())
            .collect();
        for k in 0..3 {
            assert!(
                (parts[k] - eparts[k]).abs() <= 2,
                "pixel {} channel {}: {} vs {}",
                i,
                k,
                parts[k],
                eparts[k]
            );
        }
    }
}

#[test]
fn empty_scene_renders_pure_sky_blue_channel() {
    // The sky gradient's blue channel is exactly 1.0 everywhere, so with no
    // geometry every emitted pixel's third byte is 255.
    let world = HittableList::new();
    let camera = Camera::new(
        16,
        116508,
        2,
        3,
        F,
        Vec3::new(0, 0, 0),
        Vec3::new(0, 0, -F),
        Vec3::new(0, F, 0),
        0,
        F,
    )
    .expect("camera must build");
    let out = camera.render(&world);
    let text = String::from_utf8(out).unwrap();
    for line in text.lines().skip(3) {
        let parts: Vec<i64> = line.split(' ').map(|p| p.parse::<i64>().unwrap()).collect();
        assert_eq!(parts[2], 255, "line {}", line);
    }
}

#[test]
fn random_draws_stay_in_range() {
    for _ in 0..10_000 {
        let u = random_double();
        assert!(0 <= u && u < F);
        let v = random_double_range(-100, 50);
        assert!(-100 <= v && v < 50);
    }
}

#[test]
fn random_unit_vector_length_is_one_within_tolerance() {
    for _ in 0..10_000 {
        let u = Vec3::random_unit_vector();
        let n2 = u.length_squared();
        assert!((n2 - F).abs() <= 64, "length squared {}", n2);
    }
}

#[test]
fn random_on_hemisphere_stays_on_the_normal_side() {
    let normal = Vec3::new(0, F, 0);
    for _ in 0..1000 {
        let u = Vec3::random_on_hemisphere(normal);
        assert!(u.dot(normal) >= 0);
    }
}

#[test]
fn random_in_unit_disk_is_flat_and_inside() {
    for _ in 0..1000 {
        let p = Vec3::random_in_unit_disk();
        assert_eq!(p.z, 0);
        assert!(p.length_squared() < F);
    }
}
