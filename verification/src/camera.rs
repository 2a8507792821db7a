//! The camera: viewport construction, stochastic per-pixel sampling, the
//! recursive radiance estimate, and image assembly in raster order.

use crate::color::{color_wf, pixel_lines, ppm_header_spec, write_color, write_ppm_header, Color};
use crate::fixed::{
    fx_mul, fx_mul_spec, lemma_fx_mul_bound, lemma_mul_mag, lemma_tdiv_bound, lemma_tdiv_exact,
    tdiv, tdiv_i128, FX_ONE,
};
use crate::hittable::{hittable_geom, hittable_material, HitRecord};
use crate::hittable_list::{list_wf, HittableList};
use crate::interval::Interval;
use crate::material::{material_attenuation, material_wf, scatter_ok};
use crate::ray::{ray_wf, Ray, T_MAX};
use crate::rng::random_double_range;
use crate::vec3::{
    bounded, cross_of, divided_of, lemma_dot_bounds, lemma_unit_bounded, minus_of, norm2, plus_of,
    scaled_of, tup_norm2, unit_of, view3, Point3, Vec3,
};
use vstd::arithmetic::div_mod::lemma_div_is_ordered_by_denominator;
use vstd::prelude::*;

verus! {

/// The lower bound of every shading interval: hits closer than this are
/// treated as self-intersection and ignored.
pub const T_EPS: i64 = 64;

/// A camera, immutable per render: image size, eye point, pixel grid, and
/// defocus-disk basis.
#[derive(Clone, Copy, Debug)]
pub struct Camera {
    pub image_width: u32,
    pub image_height: u32,
    pub center: Point3,
    pub pixel00_loc: Point3,
    pub pixel_delta_u: Vec3,
    pub pixel_delta_v: Vec3,
    pub samples_per_pixel: u32,
    pub max_depth: u32,
    pub defocus_angle_positive: bool,
    pub defocus_disk_u: Vec3,
    pub defocus_disk_v: Vec3,
}

/// The numeric ranges a constructed camera guarantees, and per-pixel ray
/// generation relies on: a bounded eye and pixel grid, a viewport span
/// within the direction range, and positive dimensions and sample count.
pub open spec fn camera_wf(c: Camera) -> bool {
    &&& 1 <= c.image_width <= 16384
    &&& 1 <= c.image_height <= 16384
    &&& 1 <= c.samples_per_pixel <= 65536
    &&& bounded(c.center, 0x400_0000)
    &&& bounded(c.pixel00_loc, 0x800_0000)
    &&& bounded(c.pixel_delta_u, 0x20_0000)
    &&& bounded(c.pixel_delta_v, 0x20_0000)
    &&& -0x20_0000 <= c.image_width * c.pixel_delta_u.x <= 0x20_0000
    &&& -0x20_0000 <= c.image_width * c.pixel_delta_u.y <= 0x20_0000
    &&& -0x20_0000 <= c.image_width * c.pixel_delta_u.z <= 0x20_0000
    &&& -0x20_0000 <= c.image_height * c.pixel_delta_v.x <= 0x20_0000
    &&& -0x20_0000 <= c.image_height * c.pixel_delta_v.y <= 0x20_0000
    &&& -0x20_0000 <= c.image_height * c.pixel_delta_v.z <= 0x20_0000
    &&& -0x40_0000 <= c.pixel00_loc.x - c.center.x <= 0x40_0000
    &&& -0x40_0000 <= c.pixel00_loc.y - c.center.y <= 0x40_0000
    &&& -0x40_0000 <= c.pixel00_loc.z - c.center.z <= 0x40_0000
    &&& bounded(c.defocus_disk_u, 0x10_0000)
    &&& bounded(c.defocus_disk_v, 0x10_0000)
}

/// The sky gradient's blend factor: half of one plus the unit direction's
/// vertical component, clamped into `[0, 1]`.
pub open spec fn sky_blend(r: Ray) -> int {
    let u = unit_of(r.direction);
    let raw = tdiv(u.y + FX_ONE, 2);
    if raw < 0 {
        0
    } else if raw > FX_ONE {
        FX_ONE as int
    } else {
        raw
    }
}

/// The sky gradient: a lerp from white at the horizon to sky blue upward,
/// the scene's only light source.
pub open spec fn sky_spec(r: Ray) -> (int, int, int) {
    let t = sky_blend(r);
    (
        fx_mul_spec((FX_ONE as int) - t, FX_ONE as int) + fx_mul_spec(t, 32768),
        fx_mul_spec((FX_ONE as int) - t, FX_ONE as int) + fx_mul_spec(t, 45875),
        fx_mul_spec((FX_ONE as int) - t, FX_ONE as int) + fx_mul_spec(t, FX_ONE as int),
    )
}

/// No member of the scene blocks the ray in the shading interval.
pub open spec fn scene_misses(world: HittableList, r: Ray) -> bool {
    forall|j: int|
        0 <= j < world.objects@.len() ==> hittable_geom(
            #[trigger] world.objects@[j],
            r,
            T_EPS as int,
            T_MAX as int,
        ) is None
}

/// The camera geometry that a successful construction yields, mirroring the
/// fixed-point viewport derivation exactly: the orthonormal-ish basis from
/// the eye geometry, the viewport spans from the field-of-view tangent and
/// focus distance, the per-pixel deltas, the upper-left pixel center, and
/// the defocus-disk basis.
pub open spec fn camera_setup(
    image_width: u32,
    image_height: u32,
    aspect_ratio: int,
    samples_per_pixel: u32,
    max_depth: u32,
    tan_half_vfov: int,
    lookfrom: Point3,
    lookat: Point3,
    vup: Vec3,
    tan_half_defocus: int,
    focus_dist: int,
) -> Camera {
    let viewport_height = 2 * fx_mul_spec(tan_half_vfov, focus_dist);
    let viewport_width = fx_mul_spec(aspect_ratio, viewport_height);
    let w_axis = unit_of(minus_of(lookfrom, lookat));
    let u_axis = unit_of(cross_of(vup, w_axis));
    let v_axis = cross_of(w_axis, u_axis);
    let viewport_u = scaled_of(u_axis, viewport_width);
    let viewport_v = scaled_of(v_axis, -viewport_height);
    let pixel_delta_u = divided_of(viewport_u, (image_width as int) * (FX_ONE as int));
    let pixel_delta_v = divided_of(viewport_v, (image_height as int) * (FX_ONE as int));
    let viewport_upper_left = minus_of(
        minus_of(
            minus_of(lookfrom, scaled_of(w_axis, focus_dist)),
            scaled_of(viewport_u, 32768),
        ),
        scaled_of(viewport_v, 32768),
    );
    let pixel00_loc = plus_of(
        plus_of(viewport_upper_left, scaled_of(pixel_delta_u, 32768)),
        scaled_of(pixel_delta_v, 32768),
    );
    let defocus_radius = fx_mul_spec(focus_dist, tan_half_defocus);
    Camera {
        image_width,
        image_height,
        center: lookfrom,
        pixel00_loc,
        pixel_delta_u,
        pixel_delta_v,
        samples_per_pixel,
        max_depth,
        defocus_angle_positive: tan_half_defocus > 0,
        defocus_disk_u: scaled_of(u_axis, defocus_radius),
        defocus_disk_v: scaled_of(v_axis, defocus_radius),
    }
}

/// Componentwise sum of a sequence of colors, as unbounded integers.
pub open spec fn color_sum(cols: Seq<Vec3>) -> (int, int, int)
    decreases cols.len(),
{
    if cols.len() == 0 {
        (0int, 0int, 0int)
    } else {
        let rest = color_sum(cols.skip(1));
        (cols[0].x + rest.0, cols[0].y + rest.1, cols[0].z + rest.2)
    }
}

/// Appending a color adds its components to the sum.
proof fn lemma_color_sum_push(cols: Seq<Vec3>, c: Vec3)
    ensures
        color_sum(cols.push(c)) == (
            color_sum(cols).0 + c.x,
            color_sum(cols).1 + c.y,
            color_sum(cols).2 + c.z,
        ),
    decreases cols.len(),
{
    let p2 = cols.push(c);
    if cols.len() == 0 {
        assert(p2[0] == c);
        assert(p2.skip(1) =~= Seq::<Vec3>::empty());
        assert(color_sum(p2.skip(1)) == (0int, 0int, 0int));
        assert(color_sum(cols) == (0int, 0int, 0int));
    } else {
        assert(p2[0] == cols[0]);
        assert(p2.skip(1) =~= cols.skip(1).push(c));
        lemma_color_sum_push(cols.skip(1), c);
        assert(color_sum(p2) == (
            cols[0].x + color_sum(cols.skip(1).push(c)).0,
            cols[0].y + color_sum(cols.skip(1).push(c)).1,
            cols[0].z + color_sum(cols.skip(1).push(c)).2,
        ));
        assert(color_sum(cols) == (
            cols[0].x + color_sum(cols.skip(1)).0,
            cols[0].y + color_sum(cols.skip(1)).1,
            cols[0].z + color_sum(cols.skip(1)).2,
        ));
    }
}

/// The recursive radiance relation the estimate satisfies: black at depth
/// zero; the sky gradient on a miss; and on a hit, the nearest member's
/// attenuation filtering, componentwise, a bounce color that is itself
/// radiance-consistent along a scattered ray admitted by that member's
/// material law. The scattered ray and the bounce are existential because
/// scattering draws fresh randomness; everything else is pinned.
pub open spec fn radiance_ok(world: HittableList, r: Ray, depth: int, c: Vec3) -> bool
    decreases depth,
{
    if depth <= 0 {
        c == (Vec3 { x: 0, y: 0, z: 0 })
    } else if scene_misses(world, r) {
        view3(c) == sky_spec(r)
    } else {
        exists|i: int, hr: HitRecord, bounce: Vec3|
            #![trigger hittable_geom(world.objects@[i], r, T_EPS as int, T_MAX as int), scatter_ok(
                hittable_material(world.objects@[i]),
                r,
                hr.point,
                hr.normal,
                hr.front_face,
                hr.scatter_result,
            ), color_wf(bounce)]
            {
                &&& 0 <= i < world.objects@.len()
                &&& hittable_geom(world.objects@[i], r, T_EPS as int, T_MAX as int)
                    == Option::Some(
                    (hr.t as int, view3(hr.point), view3(hr.normal), hr.front_face),
                )
                &&& forall|j: int|
                    0 <= j < world.objects@.len() ==> (hittable_geom(
                        #[trigger] world.objects@[j],
                        r,
                        T_EPS as int,
                        T_MAX as int,
                    ) is Some ==> hr.t <= hittable_geom(
                        world.objects@[j],
                        r,
                        T_EPS as int,
                        T_MAX as int,
                    )->Some_0.0)
                &&& scatter_ok(
                    hittable_material(world.objects@[i]),
                    r,
                    hr.point,
                    hr.normal,
                    hr.front_face,
                    hr.scatter_result,
                )
                &&& hr.scatter_result matches Option::Some(s) && {
                    &&& color_wf(bounce)
                    &&& radiance_ok(world, s.scattered, depth - 1, bounce)
                    &&& view3(c) == (
                        fx_mul_spec(s.attenuation.x as int, bounce.x as int),
                        fx_mul_spec(s.attenuation.y as int, bounce.y as int),
                        fx_mul_spec(s.attenuation.z as int, bounce.z as int),
                    )
                }
            }
    }
}

/// A ray drawn for pixel `(i, j)`: its origin is the eye point (or a
/// defocus-disk displacement of it), and its direction is the pixel walk
/// for some jitter in the half-open unit square, with the axis fallback
/// only when that walk is too short to normalize.
pub open spec fn pixel_sample_ok(c: Camera, i: u32, j: u32, r: Ray) -> bool {
    exists|off: Vec3, org: Vec3|
        #![trigger pixel_walk(c, i, j, off, org)]
        {
            &&& jitter_ok(off)
            &&& if c.defocus_angle_positive {
                on_defocus_disk(c, org)
            } else {
                org == c.center
            }
            &&& r.origin == org
            &&& {
                let dir = pixel_walk(c, i, j, off, org);
                if tup_norm2(dir) >= 1 {
                    view3(r.direction) == dir
                } else {
                    view3(r.direction) == (0int, 0int, -(FX_ONE as int))
                }
            }
        }
}

/// The color of pixel `(i, j)`: the componentwise sum, divided by the
/// sample count, of per-sample colors, each radiance-consistent along a
/// ray drawn for this very pixel.
pub open spec fn pixel_avg_ok(c: Camera, world: HittableList, i: u32, j: u32, col: Vec3) -> bool {
    exists|rays: Seq<Ray>, cols: Seq<Vec3>|
        #![trigger color_sum(cols), rays.len()]
        {
            &&& rays.len() == c.samples_per_pixel
            &&& cols.len() == c.samples_per_pixel
            &&& (forall|k: int|
                0 <= k < rays.len() ==> ray_wf(#[trigger] rays[k]) && pixel_sample_ok(
                    c,
                    i,
                    j,
                    rays[k],
                ))
            &&& (forall|k: int|
                0 <= k < cols.len() ==> color_wf(#[trigger] cols[k]) && radiance_ok(
                    world,
                    rays[k],
                    c.max_depth as int,
                    cols[k],
                ))
            &&& {
                let s = color_sum(cols);
                view3(col) == (
                    s.0 / (c.samples_per_pixel as int),
                    s.1 / (c.samples_per_pixel as int),
                    s.2 / (c.samples_per_pixel as int),
                )
            }
        }
}

/// Exactly when camera construction succeeds: positive dimensions and
/// sample count, a usable view direction and up hint, and a derived
/// viewport whose fields stay within the renderer's numeric ranges.
pub open spec fn camera_config_ok(
    image_width: u32,
    aspect_ratio: int,
    samples_per_pixel: u32,
    max_depth: u32,
    tan_half_vfov: int,
    lookfrom: Point3,
    lookat: Point3,
    vup: Vec3,
    tan_half_defocus: int,
    focus_dist: int,
) -> bool {
    let height = tdiv((image_width as int) * (FX_ONE as int), aspect_ratio);
    &&& image_width >= 1
    &&& 1 <= height <= 16384
    &&& samples_per_pixel >= 1
    &&& norm2(minus_of(lookfrom, lookat)) >= 1
    &&& norm2(cross_of(vup, unit_of(minus_of(lookfrom, lookat)))) >= 1
    &&& camera_wf(
        camera_setup(
            image_width,
            height as u32,
            aspect_ratio,
            samples_per_pixel,
            max_depth,
            tan_half_vfov,
            lookfrom,
            lookat,
            vup,
            tan_half_defocus,
            focus_dist,
        ),
    )
}

/// The jitter one pixel sample draws: uniform in the half-open unit square
/// around the pixel center.
pub open spec fn jitter_ok(off: Vec3) -> bool {
    &&& -32768 <= off.x < 32768
    &&& -32768 <= off.y < 32768
    &&& off.z == 0
}

/// The origin is the eye point displaced by a defocus-disk sample.
pub open spec fn on_defocus_disk(c: Camera, org: Vec3) -> bool {
    exists|p: Vec3|
        #![trigger norm2(p)]
        {
            &&& p.z == 0
            &&& bounded(p, FX_ONE as int)
            &&& norm2(p) < FX_ONE
            &&& org.x == c.center.x + fx_mul_spec(c.defocus_disk_u.x as int, p.x as int)
                + fx_mul_spec(c.defocus_disk_v.x as int, p.y as int)
            &&& org.y == c.center.y + fx_mul_spec(c.defocus_disk_u.y as int, p.x as int)
                + fx_mul_spec(c.defocus_disk_v.y as int, p.y as int)
            &&& org.z == c.center.z + fx_mul_spec(c.defocus_disk_u.z as int, p.x as int)
                + fx_mul_spec(c.defocus_disk_v.z as int, p.y as int)
        }
}

/// One sample's direction: from the origin to the jittered point of pixel
/// `(i, j)` on the viewport grid.
pub open spec fn pixel_walk(c: Camera, i: u32, j: u32, off: Vec3, org: Vec3) -> (int, int, int) {
    let su = (i as int) * (FX_ONE as int) + off.x;
    let sv = (j as int) * (FX_ONE as int) + off.y;
    (
        c.pixel00_loc.x + fx_mul_spec(c.pixel_delta_u.x as int, su) + fx_mul_spec(
            c.pixel_delta_v.x as int,
            sv,
        ) - org.x,
        c.pixel00_loc.y + fx_mul_spec(c.pixel_delta_u.y as int, su) + fx_mul_spec(
            c.pixel_delta_v.y as int,
            sv,
        ) - org.y,
        c.pixel00_loc.z + fx_mul_spec(c.pixel_delta_u.z as int, su) + fx_mul_spec(
            c.pixel_delta_v.z as int,
            sv,
        ) - org.z,
    )
}

/// One product term of the pixel-grid walk stays within the viewport span.
proof fn lemma_pixel_term_bound(s: int, d: int, w: int, cap: int)
    requires
        0 <= w,
        -(w * 65536) <= s <= w * 65536,
        -cap <= w * d <= cap,
        0 <= cap,
    ensures
        -cap <= fx_mul_spec(d, s) <= cap,
{
    let ad = if d >= 0 {
        d
    } else {
        -d
    };
    lemma_mul_mag(s, d, w * 65536, ad);
    assert((w * 65536) * ad == (w * ad) * 65536) by (nonlinear_arith);
    assert(w * ad <= cap) by (nonlinear_arith)
        requires
            0 <= w,
            -cap <= w * d <= cap,
            ad == (if d >= 0 {
                d
            } else {
                -d
            }),
    ;
    assert(0 <= w * ad) by (nonlinear_arith)
        requires
            0 <= w,
            0 <= ad,
    ;
    assert((w * ad) * 65536 <= cap * 65536) by (nonlinear_arith)
        requires
            w * ad <= cap,
    ;
    lemma_tdiv_bound(d * s, FX_ONE as int, cap * 65536);
    lemma_tdiv_exact(cap, FX_ONE as int);
    assert(d * s == s * d) by (nonlinear_arith);
}

impl Camera {
    /// Derives a camera from the image size, sampling controls, the eye
    /// geometry (look-from, look-at, up hint), the tangents of the half
    /// field-of-view and half defocus-cone angles, and the focus distance.
    /// Malformed configuration is rejected: a zero image dimension, a zero
    /// sample count, or geometry whose derived viewport leaves the
    /// renderer's numeric ranges.
    #[verifier::rlimit(100)]
    pub fn new(
        image_width: u32,
        aspect_ratio: i64,
        samples_per_pixel: u32,
        max_depth: u32,
        tan_half_vfov: i64,
        lookfrom: Point3,
        lookat: Point3,
        vup: Vec3,
        tan_half_defocus: i64,
        focus_dist: i64,
    ) -> (r: Result<Camera, crate::ConfigError>)
        requires
            image_width <= 16384,
            samples_per_pixel <= 65536,
            0 < aspect_ratio <= 0x8_0000,
            0 <= tan_half_vfov <= 0x4_0000,
            0 <= tan_half_defocus <= FX_ONE,
            0 < focus_dist <= 0x40_0000,
            bounded(lookfrom, 0x400_0000),
            bounded(lookat, 0x400_0000),
            bounded(vup, 0x10_0000),
        ensures
            image_width == 0 ==> r == Result::<Camera, crate::ConfigError>::Err(
                crate::ConfigError::ZeroImageDimensions,
            ),
            image_width > 0 && tdiv(image_width * (FX_ONE as int), aspect_ratio as int) == 0 ==> r
                == Result::<Camera, crate::ConfigError>::Err(
                crate::ConfigError::ZeroImageDimensions,
            ),
            image_width > 0 && tdiv(image_width * (FX_ONE as int), aspect_ratio as int) > 0
                && samples_per_pixel == 0 ==> r == Result::<Camera, crate::ConfigError>::Err(
                crate::ConfigError::ZeroSamplesPerPixel,
            ),
            r is Ok <==> camera_config_ok(
                image_width,
                aspect_ratio as int,
                samples_per_pixel,
                max_depth,
                tan_half_vfov as int,
                lookfrom,
                lookat,
                vup,
                tan_half_defocus as int,
                focus_dist as int,
            ),
            r is Ok ==> {
                let c = r->Ok_0;
                &&& camera_wf(c)
                &&& c.image_width == image_width
                &&& c.image_height as int == tdiv(
                    image_width * (FX_ONE as int),
                    aspect_ratio as int,
                )
                &&& c.samples_per_pixel == samples_per_pixel
                &&& c.max_depth == max_depth
                &&& c.center == lookfrom
                &&& c.defocus_angle_positive == (tan_half_defocus > 0)
                &&& c == camera_setup(
                    image_width,
                    c.image_height,
                    aspect_ratio as int,
                    samples_per_pixel,
                    max_depth,
                    tan_half_vfov as int,
                    lookfrom,
                    lookat,
                    vup,
                    tan_half_defocus as int,
                    focus_dist as int,
                )
            },
    {
        if image_width == 0 {
            return Result::Err(crate::ConfigError::ZeroImageDimensions);
        }
        proof {
            lemma_tdiv_bound(
                (image_width as int) * (FX_ONE as int),
                aspect_ratio as int,
                0x4000_0000,
            );
        }
        let height_raw = tdiv_i128(
            (image_width as i128) * (FX_ONE as i128),
            aspect_ratio as i128,
        );
        if height_raw <= 0 {
            return Result::Err(crate::ConfigError::ZeroImageDimensions);
        }
        if samples_per_pixel == 0 {
            return Result::Err(crate::ConfigError::ZeroSamplesPerPixel);
        }
        if height_raw > 16384 {
            return Result::Err(crate::ConfigError::ParameterOutOfRange);
        }
        let image_height: u32 = height_raw as u32;
        let center = lookfrom;

        proof {
            lemma_mul_mag(tan_half_vfov as int, focus_dist as int, 0x4_0000, 0x40_0000);
            lemma_fx_mul_bound(tan_half_vfov as int, focus_dist as int, 0x4_0000, 0x40_0000);
        }
        let viewport_height = 2 * fx_mul(tan_half_vfov, focus_dist);
        proof {
            lemma_mul_mag(aspect_ratio as int, viewport_height as int, 0x8_0000, 0x200_0000);
            lemma_fx_mul_bound(aspect_ratio as int, viewport_height as int, 0x8_0000, 0x200_0000);
        }
        let viewport_width = fx_mul(aspect_ratio, viewport_height);

        let look_diff = lookfrom.minus(lookat);
        proof {
            assert(look_diff == minus_of(lookfrom, lookat));
            lemma_dot_bounds(look_diff, look_diff, 0x800_0000, 0x800_0000);
        }
        if look_diff.length_squared() < 1 {
            return Result::Err(crate::ConfigError::ParameterOutOfRange);
        }
        proof {
            lemma_unit_bounded(look_diff);
        }
        let w_axis = look_diff.unit_vector();
        proof {
            assert(w_axis == unit_of(minus_of(lookfrom, lookat)));
            lemma_mul_mag(vup.x as int, w_axis.y as int, 0x10_0000, 0x2_0000);
            lemma_mul_mag(vup.x as int, w_axis.z as int, 0x10_0000, 0x2_0000);
            lemma_mul_mag(vup.y as int, w_axis.x as int, 0x10_0000, 0x2_0000);
            lemma_mul_mag(vup.y as int, w_axis.z as int, 0x10_0000, 0x2_0000);
            lemma_mul_mag(vup.z as int, w_axis.x as int, 0x10_0000, 0x2_0000);
            lemma_mul_mag(vup.z as int, w_axis.y as int, 0x10_0000, 0x2_0000);
            lemma_fx_mul_bound(vup.x as int, w_axis.y as int, 0x10_0000, 0x2_0000);
            lemma_fx_mul_bound(vup.x as int, w_axis.z as int, 0x10_0000, 0x2_0000);
            lemma_fx_mul_bound(vup.y as int, w_axis.x as int, 0x10_0000, 0x2_0000);
            lemma_fx_mul_bound(vup.y as int, w_axis.z as int, 0x10_0000, 0x2_0000);
            lemma_fx_mul_bound(vup.z as int, w_axis.x as int, 0x10_0000, 0x2_0000);
            lemma_fx_mul_bound(vup.z as int, w_axis.y as int, 0x10_0000, 0x2_0000);
        }
        let u_cross = Vec3::cross(vup, w_axis);
        proof {
            assert(u_cross == cross_of(vup, w_axis));
            lemma_dot_bounds(u_cross, u_cross, 0x80_0000, 0x80_0000);
        }
        if u_cross.length_squared() < 1 {
            return Result::Err(crate::ConfigError::ParameterOutOfRange);
        }
        proof {
            lemma_unit_bounded(u_cross);
        }
        let u_axis = u_cross.unit_vector();
        proof {
            assert(u_axis == unit_of(cross_of(vup, w_axis)));
            lemma_mul_mag(w_axis.x as int, u_axis.y as int, 0x2_0000, 0x2_0000);
            lemma_mul_mag(w_axis.x as int, u_axis.z as int, 0x2_0000, 0x2_0000);
            lemma_mul_mag(w_axis.y as int, u_axis.x as int, 0x2_0000, 0x2_0000);
            lemma_mul_mag(w_axis.y as int, u_axis.z as int, 0x2_0000, 0x2_0000);
            lemma_mul_mag(w_axis.z as int, u_axis.x as int, 0x2_0000, 0x2_0000);
            lemma_mul_mag(w_axis.z as int, u_axis.y as int, 0x2_0000, 0x2_0000);
            lemma_fx_mul_bound(w_axis.x as int, u_axis.y as int, 0x2_0000, 0x2_0000);
            lemma_fx_mul_bound(w_axis.x as int, u_axis.z as int, 0x2_0000, 0x2_0000);
            lemma_fx_mul_bound(w_axis.y as int, u_axis.x as int, 0x2_0000, 0x2_0000);
            lemma_fx_mul_bound(w_axis.y as int, u_axis.z as int, 0x2_0000, 0x2_0000);
            lemma_fx_mul_bound(w_axis.z as int, u_axis.x as int, 0x2_0000, 0x2_0000);
            lemma_fx_mul_bound(w_axis.z as int, u_axis.y as int, 0x2_0000, 0x2_0000);
        }
        let v_axis = Vec3::cross(w_axis, u_axis);
        proof {
            assert(v_axis == cross_of(w_axis, u_axis));
        }

        proof {
            lemma_mul_mag(u_axis.x as int, viewport_width as int, 0x2_0000, 0x1000_0000);
            lemma_mul_mag(u_axis.y as int, viewport_width as int, 0x2_0000, 0x1000_0000);
            lemma_mul_mag(u_axis.z as int, viewport_width as int, 0x2_0000, 0x1000_0000);
            lemma_fx_mul_bound(u_axis.x as int, viewport_width as int, 0x2_0000, 0x1000_0000);
            lemma_fx_mul_bound(u_axis.y as int, viewport_width as int, 0x2_0000, 0x1000_0000);
            lemma_fx_mul_bound(u_axis.z as int, viewport_width as int, 0x2_0000, 0x1000_0000);
            lemma_mul_mag(v_axis.x as int, -(viewport_height as int), 0x8_0000, 0x200_0000);
            lemma_mul_mag(v_axis.y as int, -(viewport_height as int), 0x8_0000, 0x200_0000);
            lemma_mul_mag(v_axis.z as int, -(viewport_height as int), 0x8_0000, 0x200_0000);
            lemma_fx_mul_bound(v_axis.x as int, -(viewport_height as int), 0x8_0000, 0x200_0000);
            lemma_fx_mul_bound(v_axis.y as int, -(viewport_height as int), 0x8_0000, 0x200_0000);
            lemma_fx_mul_bound(v_axis.z as int, -(viewport_height as int), 0x8_0000, 0x200_0000);
        }
        let viewport_u = u_axis.scaled(viewport_width);
        let viewport_v = v_axis.scaled(-viewport_height);
        proof {
            assert(viewport_u == scaled_of(u_axis, viewport_width as int));
            assert(viewport_v == scaled_of(v_axis, -(viewport_height as int)));
        }

        let width_fx = (image_width as i64) * FX_ONE;
        let height_fx = (image_height as i64) * FX_ONE;
        proof {
            lemma_tdiv_bound(viewport_u.x * (FX_ONE as int), width_fx as int, 0x2000_0000_0000);
            lemma_tdiv_bound(viewport_u.y * (FX_ONE as int), width_fx as int, 0x2000_0000_0000);
            lemma_tdiv_bound(viewport_u.z * (FX_ONE as int), width_fx as int, 0x2000_0000_0000);
            lemma_tdiv_bound(viewport_v.x * (FX_ONE as int), height_fx as int, 0x1000_0000_0000);
            lemma_tdiv_bound(viewport_v.y * (FX_ONE as int), height_fx as int, 0x1000_0000_0000);
            lemma_tdiv_bound(viewport_v.z * (FX_ONE as int), height_fx as int, 0x1000_0000_0000);
        }
        let pixel_delta_u = viewport_u.divided(width_fx);
        let pixel_delta_v = viewport_v.divided(height_fx);
        proof {
            assert(pixel_delta_u == divided_of(
                viewport_u,
                (image_width as int) * (FX_ONE as int),
            ));
            assert(pixel_delta_v == divided_of(
                viewport_v,
                (image_height as int) * (FX_ONE as int),
            ));
            lemma_div_is_ordered_by_denominator(0x2000_0000_0000, 0x1_0000, width_fx as int);
            lemma_div_is_ordered_by_denominator(0x1000_0000_0000, 0x1_0000, height_fx as int);
        }

        proof {
            lemma_mul_mag(w_axis.x as int, focus_dist as int, 0x2_0000, 0x40_0000);
            lemma_mul_mag(w_axis.y as int, focus_dist as int, 0x2_0000, 0x40_0000);
            lemma_mul_mag(w_axis.z as int, focus_dist as int, 0x2_0000, 0x40_0000);
            lemma_fx_mul_bound(w_axis.x as int, focus_dist as int, 0x2_0000, 0x40_0000);
            lemma_fx_mul_bound(w_axis.y as int, focus_dist as int, 0x2_0000, 0x40_0000);
            lemma_fx_mul_bound(w_axis.z as int, focus_dist as int, 0x2_0000, 0x40_0000);
            lemma_mul_mag(viewport_u.x as int, 32768, 0x2000_0000, 0x8000);
            lemma_mul_mag(viewport_u.y as int, 32768, 0x2000_0000, 0x8000);
            lemma_mul_mag(viewport_u.z as int, 32768, 0x2000_0000, 0x8000);
            lemma_fx_mul_bound(viewport_u.x as int, 32768, 0x2000_0000, 0x8000);
            lemma_fx_mul_bound(viewport_u.y as int, 32768, 0x2000_0000, 0x8000);
            lemma_fx_mul_bound(viewport_u.z as int, 32768, 0x2000_0000, 0x8000);
            lemma_mul_mag(viewport_v.x as int, 32768, 0x2000_0000, 0x8000);
            lemma_mul_mag(viewport_v.y as int, 32768, 0x2000_0000, 0x8000);
            lemma_mul_mag(viewport_v.z as int, 32768, 0x2000_0000, 0x8000);
            lemma_fx_mul_bound(viewport_v.x as int, 32768, 0x2000_0000, 0x8000);
            lemma_fx_mul_bound(viewport_v.y as int, 32768, 0x2000_0000, 0x8000);
            lemma_fx_mul_bound(viewport_v.z as int, 32768, 0x2000_0000, 0x8000);
        }
        let focus_w = w_axis.scaled(focus_dist);
        let half_u = viewport_u.scaled(32768);
        let half_v = viewport_v.scaled(32768);
        let viewport_upper_left = center.minus(focus_w).minus(half_u).minus(half_v);
        proof {
            assert(viewport_upper_left == minus_of(
                minus_of(minus_of(lookfrom, scaled_of(w_axis, focus_dist as int)), scaled_of(
                viewport_u, 32768)),
                scaled_of(viewport_v, 32768),
            ));
        }

        proof {
            lemma_mul_mag(pixel_delta_u.x as int, 32768, 0x2000_0000, 0x8000);
            lemma_mul_mag(pixel_delta_u.y as int, 32768, 0x2000_0000, 0x8000);
            lemma_mul_mag(pixel_delta_u.z as int, 32768, 0x2000_0000, 0x8000);
            lemma_fx_mul_bound(pixel_delta_u.x as int, 32768, 0x2000_0000, 0x8000);
            lemma_fx_mul_bound(pixel_delta_u.y as int, 32768, 0x2000_0000, 0x8000);
            lemma_fx_mul_bound(pixel_delta_u.z as int, 32768, 0x2000_0000, 0x8000);
            lemma_mul_mag(pixel_delta_v.x as int, 32768, 0x2000_0000, 0x8000);
            lemma_mul_mag(pixel_delta_v.y as int, 32768, 0x2000_0000, 0x8000);
            lemma_mul_mag(pixel_delta_v.z as int, 32768, 0x2000_0000, 0x8000);
            lemma_fx_mul_bound(pixel_delta_v.x as int, 32768, 0x2000_0000, 0x8000);
            lemma_fx_mul_bound(pixel_delta_v.y as int, 32768, 0x2000_0000, 0x8000);
            lemma_fx_mul_bound(pixel_delta_v.z as int, 32768, 0x2000_0000, 0x8000);
        }
        let half_du = pixel_delta_u.scaled(32768);
        let half_dv = pixel_delta_v.scaled(32768);
        let pixel00_loc = viewport_upper_left.plus(half_du).plus(half_dv);
        proof {
            assert(pixel00_loc == plus_of(
                plus_of(viewport_upper_left, scaled_of(pixel_delta_u, 32768)),
                scaled_of(pixel_delta_v, 32768),
            ));
        }

        proof {
            lemma_mul_mag(focus_dist as int, tan_half_defocus as int, 0x40_0000, 0x1_0000);
            lemma_fx_mul_bound(focus_dist as int, tan_half_defocus as int, 0x40_0000, 0x1_0000);
        }
        let defocus_radius = fx_mul(focus_dist, tan_half_defocus);
        proof {
            lemma_mul_mag(u_axis.x as int, defocus_radius as int, 0x2_0000, 0x40_0000);
            lemma_mul_mag(u_axis.y as int, defocus_radius as int, 0x2_0000, 0x40_0000);
            lemma_mul_mag(u_axis.z as int, defocus_radius as int, 0x2_0000, 0x40_0000);
            lemma_fx_mul_bound(u_axis.x as int, defocus_radius as int, 0x2_0000, 0x40_0000);
            lemma_fx_mul_bound(u_axis.y as int, defocus_radius as int, 0x2_0000, 0x40_0000);
            lemma_fx_mul_bound(u_axis.z as int, defocus_radius as int, 0x2_0000, 0x40_0000);
            lemma_mul_mag(v_axis.x as int, defocus_radius as int, 0x8_0000, 0x40_0000);
            lemma_mul_mag(v_axis.y as int, defocus_radius as int, 0x8_0000, 0x40_0000);
            lemma_mul_mag(v_axis.z as int, defocus_radius as int, 0x8_0000, 0x40_0000);
            lemma_fx_mul_bound(v_axis.x as int, defocus_radius as int, 0x8_0000, 0x40_0000);
            lemma_fx_mul_bound(v_axis.y as int, defocus_radius as int, 0x8_0000, 0x40_0000);
            lemma_fx_mul_bound(v_axis.z as int, defocus_radius as int, 0x8_0000, 0x40_0000);
        }
        let defocus_disk_u = u_axis.scaled(defocus_radius);
        let defocus_disk_v = v_axis.scaled(defocus_radius);
        proof {
            assert(defocus_disk_u == scaled_of(u_axis, defocus_radius as int));
            assert(defocus_disk_v == scaled_of(v_axis, defocus_radius as int));
        }

        let camera = Camera {
            image_width,
            image_height,
            center,
            pixel00_loc,
            pixel_delta_u,
            pixel_delta_v,
            samples_per_pixel,
            max_depth,
            defocus_angle_positive: tan_half_defocus > 0,
            defocus_disk_u,
            defocus_disk_v,
        };
        proof {
            assert(camera == camera_setup(
                image_width,
                image_height,
                aspect_ratio as int,
                samples_per_pixel,
                max_depth,
                tan_half_vfov as int,
                lookfrom,
                lookat,
                vup,
                tan_half_defocus as int,
                focus_dist as int,
            ));
        }
        if !(-0x800_0000 <= camera.pixel00_loc.x && camera.pixel00_loc.x <= 0x800_0000
            && -0x800_0000 <= camera.pixel00_loc.y && camera.pixel00_loc.y <= 0x800_0000
            && -0x800_0000 <= camera.pixel00_loc.z && camera.pixel00_loc.z <= 0x800_0000) {
            return Result::Err(crate::ConfigError::ParameterOutOfRange);
        }
        if !(-0x20_0000 <= camera.pixel_delta_u.x && camera.pixel_delta_u.x <= 0x20_0000
            && -0x20_0000 <= camera.pixel_delta_u.y && camera.pixel_delta_u.y <= 0x20_0000
            && -0x20_0000 <= camera.pixel_delta_u.z && camera.pixel_delta_u.z <= 0x20_0000) {
            return Result::Err(crate::ConfigError::ParameterOutOfRange);
        }
        if !(-0x20_0000 <= camera.pixel_delta_v.x && camera.pixel_delta_v.x <= 0x20_0000
            && -0x20_0000 <= camera.pixel_delta_v.y && camera.pixel_delta_v.y <= 0x20_0000
            && -0x20_0000 <= camera.pixel_delta_v.z && camera.pixel_delta_v.z <= 0x20_0000) {
            return Result::Err(crate::ConfigError::ParameterOutOfRange);
        }
        let wi = image_width as i64;
        let hi = image_height as i64;
        proof {
            lemma_mul_mag(wi as int, camera.pixel_delta_u.x as int, 16384, 0x20_0000);
            lemma_mul_mag(wi as int, camera.pixel_delta_u.y as int, 16384, 0x20_0000);
            lemma_mul_mag(wi as int, camera.pixel_delta_u.z as int, 16384, 0x20_0000);
            lemma_mul_mag(hi as int, camera.pixel_delta_v.x as int, 16384, 0x20_0000);
            lemma_mul_mag(hi as int, camera.pixel_delta_v.y as int, 16384, 0x20_0000);
            lemma_mul_mag(hi as int, camera.pixel_delta_v.z as int, 16384, 0x20_0000);
        }
        if !(-0x20_0000 <= wi * camera.pixel_delta_u.x && wi * camera.pixel_delta_u.x <= 0x20_0000
            && -0x20_0000 <= wi * camera.pixel_delta_u.y && wi * camera.pixel_delta_u.y
            <= 0x20_0000 && -0x20_0000 <= wi * camera.pixel_delta_u.z && wi
            * camera.pixel_delta_u.z <= 0x20_0000) {
            return Result::Err(crate::ConfigError::ParameterOutOfRange);
        }
        if !(-0x20_0000 <= hi * camera.pixel_delta_v.x && hi * camera.pixel_delta_v.x <= 0x20_0000
            && -0x20_0000 <= hi * camera.pixel_delta_v.y && hi * camera.pixel_delta_v.y
            <= 0x20_0000 && -0x20_0000 <= hi * camera.pixel_delta_v.z && hi
            * camera.pixel_delta_v.z <= 0x20_0000) {
            return Result::Err(crate::ConfigError::ParameterOutOfRange);
        }
        if !(-0x40_0000 <= camera.pixel00_loc.x - camera.center.x && camera.pixel00_loc.x
            - camera.center.x <= 0x40_0000 && -0x40_0000 <= camera.pixel00_loc.y - camera.center.y
            && camera.pixel00_loc.y - camera.center.y <= 0x40_0000 && -0x40_0000
            <= camera.pixel00_loc.z - camera.center.z && camera.pixel00_loc.z - camera.center.z
            <= 0x40_0000) {
            return Result::Err(crate::ConfigError::ParameterOutOfRange);
        }
        if !(-0x10_0000 <= camera.defocus_disk_u.x && camera.defocus_disk_u.x <= 0x10_0000
            && -0x10_0000 <= camera.defocus_disk_u.y && camera.defocus_disk_u.y <= 0x10_0000
            && -0x10_0000 <= camera.defocus_disk_u.z && camera.defocus_disk_u.z <= 0x10_0000) {
            return Result::Err(crate::ConfigError::ParameterOutOfRange);
        }
        if !(-0x10_0000 <= camera.defocus_disk_v.x && camera.defocus_disk_v.x <= 0x10_0000
            && -0x10_0000 <= camera.defocus_disk_v.y && camera.defocus_disk_v.y <= 0x10_0000
            && -0x10_0000 <= camera.defocus_disk_v.z && camera.defocus_disk_v.z <= 0x10_0000) {
            return Result::Err(crate::ConfigError::ParameterOutOfRange);
        }
        Result::Ok(camera)
    }

    /// A uniform jitter within the pixel's half-open unit square.
    fn sample_square() -> (r: Vec3)
        ensures
            -32768 <= r.x < 32768,
            -32768 <= r.y < 32768,
            r.z == 0,
    {
        Vec3 {
            x: random_double_range(-32768, 32768),
            y: random_double_range(-32768, 32768),
            z: 0,
        }
    }

    /// A ray origin sampled from the defocus disk around the eye point.
    fn defocus_disk_sample(&self) -> (r: Point3)
        requires
            camera_wf(*self),
        ensures
            -0x20_0000 <= r.x - self.center.x <= 0x20_0000,
            -0x20_0000 <= r.y - self.center.y <= 0x20_0000,
            -0x20_0000 <= r.z - self.center.z <= 0x20_0000,
            on_defocus_disk(*self, r),
    {
        let p = Vec3::random_in_unit_disk();
        proof {
            lemma_mul_mag(p.x as int, self.defocus_disk_u.x as int, 0x1_0000, 0x10_0000);
            lemma_mul_mag(p.x as int, self.defocus_disk_u.y as int, 0x1_0000, 0x10_0000);
            lemma_mul_mag(p.x as int, self.defocus_disk_u.z as int, 0x1_0000, 0x10_0000);
            lemma_fx_mul_bound(p.x as int, self.defocus_disk_u.x as int, 0x1_0000, 0x10_0000);
            lemma_fx_mul_bound(p.x as int, self.defocus_disk_u.y as int, 0x1_0000, 0x10_0000);
            lemma_fx_mul_bound(p.x as int, self.defocus_disk_u.z as int, 0x1_0000, 0x10_0000);
            lemma_mul_mag(p.y as int, self.defocus_disk_v.x as int, 0x1_0000, 0x10_0000);
            lemma_mul_mag(p.y as int, self.defocus_disk_v.y as int, 0x1_0000, 0x10_0000);
            lemma_mul_mag(p.y as int, self.defocus_disk_v.z as int, 0x1_0000, 0x10_0000);
            lemma_fx_mul_bound(p.y as int, self.defocus_disk_v.x as int, 0x1_0000, 0x10_0000);
            lemma_fx_mul_bound(p.y as int, self.defocus_disk_v.y as int, 0x1_0000, 0x10_0000);
            lemma_fx_mul_bound(p.y as int, self.defocus_disk_v.z as int, 0x1_0000, 0x10_0000);
        }
        let offset_u = self.defocus_disk_u.scaled(p.x);
        let offset_v = self.defocus_disk_v.scaled(p.y);
        let sampled = self.center.plus(offset_u).plus(offset_v);
        proof {
            assert(norm2(p) < FX_ONE);
        }
        sampled
    }

    /// One stochastic sample ray through pixel `(i, j)`: jittered within the
    /// pixel square, originating at the eye or on the defocus disk. A
    /// degenerate direction (possible only when the focus distance is below
    /// the fixed-point resolution) falls back to the negative z axis.
    pub fn get_ray(&self, i: u32, j: u32) -> (r: Ray)
        requires
            camera_wf(*self),
            i < self.image_width,
            j < self.image_height,
        ensures
            ray_wf(r),
            !self.defocus_angle_positive ==> r.origin == self.center,
            pixel_sample_ok(*self, i, j, r),
    {
        let offset = Self::sample_square();
        let su = (i as i64) * FX_ONE + offset.x;
        let sv = (j as i64) * FX_ONE + offset.y;
        proof {
            assert((i as int) * 65536 + 65536 <= (self.image_width as int) * 65536)
                by (nonlinear_arith)
                requires
                    i < self.image_width,
            ;
            assert((j as int) * 65536 + 65536 <= (self.image_height as int) * 65536)
                by (nonlinear_arith)
                requires
                    j < self.image_height,
            ;
            lemma_mul_mag(su as int, self.pixel_delta_u.x as int, 0x4000_0000, 0x20_0000);
            lemma_mul_mag(su as int, self.pixel_delta_u.y as int, 0x4000_0000, 0x20_0000);
            lemma_mul_mag(su as int, self.pixel_delta_u.z as int, 0x4000_0000, 0x20_0000);
            lemma_mul_mag(sv as int, self.pixel_delta_v.x as int, 0x4000_0000, 0x20_0000);
            lemma_mul_mag(sv as int, self.pixel_delta_v.y as int, 0x4000_0000, 0x20_0000);
            lemma_mul_mag(sv as int, self.pixel_delta_v.z as int, 0x4000_0000, 0x20_0000);
            lemma_pixel_term_bound(
                su as int,
                self.pixel_delta_u.x as int,
                self.image_width as int,
                0x20_0000,
            );
            lemma_pixel_term_bound(
                su as int,
                self.pixel_delta_u.y as int,
                self.image_width as int,
                0x20_0000,
            );
            lemma_pixel_term_bound(
                su as int,
                self.pixel_delta_u.z as int,
                self.image_width as int,
                0x20_0000,
            );
            lemma_pixel_term_bound(
                sv as int,
                self.pixel_delta_v.x as int,
                self.image_height as int,
                0x20_0000,
            );
            lemma_pixel_term_bound(
                sv as int,
                self.pixel_delta_v.y as int,
                self.image_height as int,
                0x20_0000,
            );
            lemma_pixel_term_bound(
                sv as int,
                self.pixel_delta_v.z as int,
                self.image_height as int,
                0x20_0000,
            );
        }
        let step_u = self.pixel_delta_u.scaled(su);
        let step_v = self.pixel_delta_v.scaled(sv);
        let pixel_sample = self.pixel00_loc.plus(step_u).plus(step_v);
        let origin = if self.defocus_angle_positive {
            self.defocus_disk_sample()
        } else {
            self.center
        };
        let direction = pixel_sample.minus(origin);
        proof {
            assert(view3(direction) == pixel_walk(*self, i, j, offset, origin));
            lemma_dot_bounds(direction, direction, 0x100_0000, 0x100_0000);
        }
        let n2 = direction.length_squared();
        if n2 >= 1 {
            Ray::new(origin, direction)
        } else {
            proof {
                lemma_tdiv_exact(FX_ONE as int, FX_ONE as int);
                lemma_tdiv_exact(0, FX_ONE as int);
                assert((-(FX_ONE as int)) * (-(FX_ONE as int)) == (FX_ONE as int) * (
                FX_ONE as int)) by (nonlinear_arith);
            }
            Ray::new(origin, Vec3 { x: 0, y: 0, z: -FX_ONE })
        }
    }

    /// The recursive radiance estimate: always a well-formed color, and
    /// consistent with `radiance_ok` — exactly black at depth zero, exactly
    /// the sky gradient on a miss, and on a hit the nearest member's
    /// attenuation filtering a recursively consistent bounce.
    pub fn ray_color(ray: &Ray, max_depth: u32, world: &HittableList) -> (c: Color)
        requires
            ray_wf(*ray),
            list_wf(*world),
        ensures
            color_wf(c),
            max_depth == 0 ==> c == (Vec3 { x: 0, y: 0, z: 0 }),
            max_depth > 0 && scene_misses(*world, *ray) ==> view3(c) == sky_spec(*ray),
            radiance_ok(*world, *ray, max_depth as int, c),
        decreases max_depth,
    {
        if max_depth == 0 {
            return Vec3 { x: 0, y: 0, z: 0 };
        }
        let hit = world.hit(ray, Interval::new(T_EPS, T_MAX));
        match hit {
            Option::Some(hit_result) => {
                match hit_result.scatter_result {
                    Option::Some(scatter) => {
                        proof {
                            let i = choose|i: int|
                                0 <= i < world.objects@.len() && hittable_geom(
                                    #[trigger] world.objects@[i],
                                    *ray,
                                    T_EPS as int,
                                    T_MAX as int,
                                ) == Option::Some(
                                    (
                                        hit_result.t as int,
                                        view3(hit_result.point),
                                        view3(hit_result.normal),
                                        hit_result.front_face,
                                    ),
                                ) && scatter_ok(
                                    hittable_material(world.objects@[i]),
                                    *ray,
                                    hit_result.point,
                                    hit_result.normal,
                                    hit_result.front_face,
                                    hit_result.scatter_result,
                                );
                            assert(material_wf(hittable_material(world.objects@[i])));
                            assert(color_wf(scatter.attenuation));
                            assert(ray_wf(scatter.scattered));
                            assert(scatter.attenuation == material_attenuation(
                                hittable_material(world.objects@[i]),
                            ));
                            assert(!scene_misses(*world, *ray));
                        }
                        let bounce = Self::ray_color(&scatter.scattered, max_depth - 1, world);
                        proof {
                            lemma_mul_mag(scatter.attenuation.x as int, bounce.x as int, 0x1_0000, 0x1_0000);
                            lemma_mul_mag(scatter.attenuation.y as int, bounce.y as int, 0x1_0000, 0x1_0000);
                            lemma_mul_mag(scatter.attenuation.z as int, bounce.z as int, 0x1_0000, 0x1_0000);
                            lemma_fx_mul_bound(scatter.attenuation.x as int, bounce.x as int, 0x1_0000, 0x1_0000);
                            lemma_fx_mul_bound(scatter.attenuation.y as int, bounce.y as int, 0x1_0000, 0x1_0000);
                            lemma_fx_mul_bound(scatter.attenuation.z as int, bounce.z as int, 0x1_0000, 0x1_0000);
                        }
                        let filtered = scatter.attenuation.comp_mul(bounce);
                        proof {
                            let i = choose|i: int|
                                0 <= i < world.objects@.len() && hittable_geom(
                                    #[trigger] world.objects@[i],
                                    *ray,
                                    T_EPS as int,
                                    T_MAX as int,
                                ) == Option::Some(
                                    (
                                        hit_result.t as int,
                                        view3(hit_result.point),
                                        view3(hit_result.normal),
                                        hit_result.front_face,
                                    ),
                                ) && scatter_ok(
                                    hittable_material(world.objects@[i]),
                                    *ray,
                                    hit_result.point,
                                    hit_result.normal,
                                    hit_result.front_face,
                                    hit_result.scatter_result,
                                );
                            assert(radiance_ok(*world, scatter.scattered, max_depth - 1, bounce));
                            assert(color_wf(bounce));
                        }
                        filtered
                    },
                    Option::None => {
                        proof {
                            let i = choose|i: int|
                                0 <= i < world.objects@.len() && hittable_geom(
                                    #[trigger] world.objects@[i],
                                    *ray,
                                    T_EPS as int,
                                    T_MAX as int,
                                ) == Option::Some(
                                    (
                                        hit_result.t as int,
                                        view3(hit_result.point),
                                        view3(hit_result.normal),
                                        hit_result.front_face,
                                    ),
                                ) && scatter_ok(
                                    hittable_material(world.objects@[i]),
                                    *ray,
                                    hit_result.point,
                                    hit_result.normal,
                                    hit_result.front_face,
                                    hit_result.scatter_result,
                                );
                            assert(false);
                        }
                        Vec3 { x: 0, y: 0, z: 0 }
                    },
                }
            },
            Option::None => {
                proof {
                    lemma_dot_bounds(ray.direction, ray.direction, 0x100_0000, 0x100_0000);
                    lemma_unit_bounded(ray.direction);
                }
                let unit_direction = ray.direction().unit_vector();
                proof {
                    assert(unit_direction == unit_of(ray.direction));
                    lemma_tdiv_bound(unit_direction.y + FX_ONE, 2, 0x3_0000);
                }
                let blend_raw = tdiv_i128((unit_direction.y + FX_ONE) as i128, 2) as i64;
                let t = if blend_raw < 0 {
                    0
                } else if blend_raw > FX_ONE {
                    FX_ONE
                } else {
                    blend_raw
                };
                proof {
                    lemma_tdiv_exact((FX_ONE - t) as int, FX_ONE as int);
                    lemma_mul_mag(t as int, 32768, 0x1_0000, 0x8000);
                    lemma_fx_mul_bound(t as int, 32768, 0x1_0000, 0x8000);
                    lemma_mul_mag(t as int, 45875, 0x1_0000, 0xB333);
                    lemma_fx_mul_bound(t as int, 45875, 0x1_0000, 0xB333);
                    lemma_tdiv_exact(t as int, FX_ONE as int);
                    assert(t * 32768 >= 0 && t * 45875 >= 0 && t * (FX_ONE as int) >= 0)
                        by (nonlinear_arith)
                        requires
                            t >= 0,
                    ;
                    assert(t * 32768 <= t * 65536 && t * 45875 <= t * 65536) by (nonlinear_arith)
                        requires
                            t >= 0,
                    ;
                    lemma_tdiv_bound(t * 32768, FX_ONE as int, t * 65536);
                    lemma_tdiv_bound(t * 45875, FX_ONE as int, t * 65536);
                }
                Vec3 {
                    x: fx_mul(FX_ONE - t, FX_ONE) + fx_mul(t, 32768),
                    y: fx_mul(FX_ONE - t, FX_ONE) + fx_mul(t, 45875),
                    z: fx_mul(FX_ONE - t, FX_ONE) + fx_mul(t, FX_ONE),
                }
            },
        }
    }

    /// The averaged color of one pixel: `samples_per_pixel` independent
    /// sample rays, each drawn by the pixel walk for `(i, j)`, each
    /// resolved to a radiance-consistent color, summed and divided by the
    /// sample count; at depth zero the pixel is exactly black.
    pub fn render_pixel(&self, world: &HittableList, i: u32, j: u32) -> (c: Color)
        requires
            camera_wf(*self),
            list_wf(*world),
            i < self.image_width,
            j < self.image_height,
        ensures
            color_wf(c),
            self.max_depth == 0 ==> c == (Vec3 { x: 0, y: 0, z: 0 }),
            pixel_avg_ok(*self, *world, i, j, c),
    {
        let mut acc = Vec3 { x: 0, y: 0, z: 0 };
        let mut s: u32 = 0;
        let ghost mut rays: Seq<Ray> = Seq::empty();
        let ghost mut cols: Seq<Vec3> = Seq::empty();
        while s < self.samples_per_pixel
            invariant
                camera_wf(*self),
                list_wf(*world),
                i < self.image_width,
                j < self.image_height,
                0 <= s <= self.samples_per_pixel,
                0 <= acc.x <= s * (FX_ONE as int),
                0 <= acc.y <= s * (FX_ONE as int),
                0 <= acc.z <= s * (FX_ONE as int),
                rays.len() == s,
                cols.len() == s,
                forall|k: int|
                    0 <= k < rays.len() ==> ray_wf(#[trigger] rays[k]) && pixel_sample_ok(
                        *self,
                        i,
                        j,
                        rays[k],
                    ),
                forall|k: int|
                    0 <= k < cols.len() ==> color_wf(#[trigger] cols[k]) && radiance_ok(
                        *world,
                        rays[k],
                        self.max_depth as int,
                        cols[k],
                    ),
                (acc.x as int, acc.y as int, acc.z as int) == color_sum(cols),
                self.max_depth == 0 ==> acc == (Vec3 { x: 0, y: 0, z: 0 }),
            decreases self.samples_per_pixel - s,
        {
            let r = self.get_ray(i, j);
            let sample = Self::ray_color(&r, self.max_depth, world);
            proof {
                assert((s as int) * 65536 + 65536 == ((s + 1) as int) * 65536) by (nonlinear_arith);
                assert((s as int + 1) * 65536 <= 0x1_0000 * 65536) by (nonlinear_arith)
                    requires
                        s + 1 <= 0x1_0000,
                ;
                lemma_color_sum_push(cols, sample);
                rays = rays.push(r);
                cols = cols.push(sample);
            }
            acc = acc.plus(sample);
            s = s + 1;
        }
        let n = self.samples_per_pixel;
        proof {
            assert((self.samples_per_pixel as int) * 65536 <= 0x1_0000_0000);
            vstd::arithmetic::div_mod::lemma_div_is_ordered(
                acc.x as int,
                (n as int) * 65536,
                n as int,
            );
            vstd::arithmetic::div_mod::lemma_div_is_ordered(
                acc.y as int,
                (n as int) * 65536,
                n as int,
            );
            vstd::arithmetic::div_mod::lemma_div_is_ordered(
                acc.z as int,
                (n as int) * 65536,
                n as int,
            );
            vstd::arithmetic::div_mod::lemma_div_by_multiple(65536, n as int);
            assert((n as int) * 65536 == 65536 * (n as int)) by (nonlinear_arith);
            vstd::arithmetic::div_mod::lemma_div_is_ordered(0, acc.x as int, n as int);
            vstd::arithmetic::div_mod::lemma_div_is_ordered(0, acc.y as int, n as int);
            vstd::arithmetic::div_mod::lemma_div_is_ordered(0, acc.z as int, n as int);
            vstd::arithmetic::div_mod::lemma_div_by_multiple(0, n as int);
            assert(0int * (n as int) == 0) by (nonlinear_arith);
        }
        let averaged = Vec3 {
            x: ((acc.x as u64) / (n as u64)) as i64,
            y: ((acc.y as u64) / (n as u64)) as i64,
            z: ((acc.z as u64) / (n as u64)) as i64,
        };
        proof {
            assert(color_sum(cols) == color_sum(cols));
            assert(rays.len() == self.samples_per_pixel);
        }
        averaged
    }

    /// Renders the scene to a complete portable-pixmap byte stream: the
    /// header, then one `"R G B\n"` line per pixel in raster order. The
    /// pixel at sequence position `jj * width + ii` is pixel `(ii, jj)`'s
    /// own sample average (`pixel_avg_ok`): top to bottom, left to right,
    /// each tied to its own pixel-walk rays and their radiance.
    pub fn render(&self, world: &HittableList) -> (out: Vec<u8>)
        requires
            camera_wf(*self),
            list_wf(*world),
        ensures
            exists|pix: Seq<Vec3>|
                #![auto]
                {
                    &&& pix.len() == (self.image_height as int) * (self.image_width as int)
                    &&& (forall|k: int| 0 <= k < pix.len() ==> color_wf(pix[k]))
                    &&& (self.max_depth == 0 ==> forall|k: int|
                        0 <= k < pix.len() ==> pix[k] == (Vec3 { x: 0, y: 0, z: 0 }))
                    &&& (forall|jj: int, ii: int|
                        0 <= jj < self.image_height && 0 <= ii < self.image_width
                            ==> pixel_avg_ok(
                            *self,
                            *world,
                            ii as u32,
                            jj as u32,
                            #[trigger] pix[jj * (self.image_width as int) + ii],
                        ))
                    &&& out@ == ppm_header_spec(
                        self.image_width as int,
                        self.image_height as int,
                    ) + pixel_lines(pix)
                },
    {
        let mut out: Vec<u8> = Vec::new();
        write_ppm_header(&mut out, self.image_width, self.image_height);
        let ghost header = out@;
        let ghost mut pix: Seq<Vec3> = Seq::empty();
        proof {
            crate::color::lemma_pixel_lines_empty();
        }
        let mut j: u32 = 0;
        while j < self.image_height
            invariant
                camera_wf(*self),
                list_wf(*world),
                0 <= j <= self.image_height,
                pix.len() == (j as int) * (self.image_width as int),
                forall|k: int| 0 <= k < pix.len() ==> color_wf(#[trigger] pix[k]),
                self.max_depth == 0 ==> forall|k: int|
                    0 <= k < pix.len() ==> #[trigger] pix[k] == (Vec3 { x: 0, y: 0, z: 0 }),
                forall|jj: int, ii: int|
                    0 <= jj < j && 0 <= ii < self.image_width ==> pixel_avg_ok(
                        *self,
                        *world,
                        ii as u32,
                        jj as u32,
                        #[trigger] pix[jj * (self.image_width as int) + ii],
                    ),
                header == ppm_header_spec(self.image_width as int, self.image_height as int),
                out@ == header + pixel_lines(pix),
            decreases self.image_height - j,
        {
            let mut i: u32 = 0;
            while i < self.image_width
                invariant
                    camera_wf(*self),
                    list_wf(*world),
                    0 <= j < self.image_height,
                    0 <= i <= self.image_width,
                    pix.len() == (j as int) * (self.image_width as int) + i,
                    forall|k: int| 0 <= k < pix.len() ==> color_wf(#[trigger] pix[k]),
                    self.max_depth == 0 ==> forall|k: int|
                        0 <= k < pix.len() ==> #[trigger] pix[k] == (Vec3 { x: 0, y: 0, z: 0 }),
                    forall|jj: int, ii: int|
                        (0 <= jj < j && 0 <= ii < self.image_width) || (jj == j && 0 <= ii < i)
                            ==> pixel_avg_ok(
                            *self,
                            *world,
                            ii as u32,
                            jj as u32,
                            #[trigger] pix[jj * (self.image_width as int) + ii],
                        ),
                    header == ppm_header_spec(self.image_width as int, self.image_height as int),
                    out@ == header + pixel_lines(pix),
                decreases self.image_width - i,
            {
                let c = self.render_pixel(world, i, j);
                write_color(&mut out, c);
                proof {
                    crate::color::lemma_pixel_lines_push(pix, c);
                    pix = pix.push(c);
                    assert(pix[(j as int) * (self.image_width as int) + (i as int)] == c);
                    assert forall|jj: int, ii: int|
                        0 <= jj < j && 0 <= ii < self.image_width implies #[trigger] (jj * (
                    self.image_width as int) + ii) < (j as int) * (self.image_width as int) by {
                        assert(jj * (self.image_width as int) + (self.image_width as int) <= (
                        j as int) * (self.image_width as int)) by (nonlinear_arith)
                            requires
                                jj < j,
                                0 <= jj,
                        ;
                    }
                }
                i = i + 1;
            }
            proof {
                assert((j as int) * (self.image_width as int) + (self.image_width as int) == ((
                j + 1) as int) * (self.image_width as int)) by (nonlinear_arith);
            }
            j = j + 1;
        }
        out
    }
}

} // verus!
