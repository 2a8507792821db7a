//! Spheres and their ray intersection.
//!
//! The quadratic `a*t^2 + 2*half_b*t + c == 0` is solved in fixed point and
//! the nearest admissible root taken; the hit's point and corrected normal
//! are computed, the owned material scatters at the hit, and the finished
//! record is returned.
//!
//! One deviation of the bounded fixed-point model from the ideal rule that
//! only a negative discriminant or out-of-interval roots mean no
//! intersection: a root whose hit point leaves the working volume, or whose
//! corrected normal leaves the unit-length tolerance, is also reported as no
//! hit. Both guards can fire only where the scene itself leaves the model's
//! coordinate ranges, and both stand in the specification
//! (`sphere_hit_geom`) rather than behind it.

use crate::fixed::{
    fx_div, fx_div_spec, fx_mul, fx_mul_spec, fx_sqrt, fx_sqrt_spec, lemma_fx_mul_bound,
    lemma_mul_mag, lemma_sqrt_below, lemma_tdiv_bound, lemma_tdiv_exact, tdiv, FX_ONE,
};
use crate::hittable::{normal_wf, HitRecord};
use crate::interval::Interval;
use crate::material::{material_wf, scatter_ok, Material};
use crate::ray::{ray_at_spec, ray_wf, Ray, POS_MAX, T_MAX};
use crate::vec3::{bounded, lemma_dot_bounds, tup_dot3, view3, Point3, Vec3};
use vstd::prelude::*;

verus! {

/// A sphere: center, nonnegative radius, and its owned material.
#[derive(Clone, Copy)]
pub struct Sphere {
    pub center: Point3,
    pub radius: i64,
    pub material: Material,
}

/// A sphere the renderer can intersect: center in the working volume,
/// radius within it, material parameters in range.
pub open spec fn sphere_wf(s: Sphere) -> bool {
    &&& bounded(s.center, POS_MAX as int)
    &&& 0 <= s.radius <= POS_MAX
    &&& material_wf(s.material)
}

/// The offset from the sphere's center to the ray's origin.
pub open spec fn sphere_oc(s: Sphere, r: Ray) -> (int, int, int) {
    (r.origin.x - s.center.x, r.origin.y - s.center.y, r.origin.z - s.center.z)
}

/// The quadratic's leading coefficient: the direction's squared length.
pub open spec fn sphere_a(r: Ray) -> int {
    tup_dot3(view3(r.direction), view3(r.direction))
}

/// Half the quadratic's linear coefficient.
pub open spec fn sphere_half_b(s: Sphere, r: Ray) -> int {
    tup_dot3(sphere_oc(s, r), view3(r.direction))
}

/// The quadratic's constant coefficient.
pub open spec fn sphere_c(s: Sphere, r: Ray) -> int {
    tup_dot3(sphere_oc(s, r), sphere_oc(s, r)) - fx_mul_spec(s.radius as int, s.radius as int)
}

/// The discriminant `half_b^2 - a*c`; negative means no intersection.
pub open spec fn sphere_disc(s: Sphere, r: Ray) -> int {
    fx_mul_spec(sphere_half_b(s, r), sphere_half_b(s, r)) - fx_mul_spec(
        sphere_a(r),
        sphere_c(s, r),
    )
}

/// The root the intersection selects: the smaller admissible root of the
/// quadratic, else the larger, else none. A degenerate sphere or ray never
/// intersects.
pub open spec fn sphere_root(s: Sphere, r: Ray, tmin: int, tmax: int) -> Option<int> {
    if s.radius <= 0 {
        Option::None
    } else {
        let a = sphere_a(r);
        if a <= 0 {
            Option::None
        } else {
            let half_b = sphere_half_b(s, r);
            let disc = sphere_disc(s, r);
            if disc < 0 {
                Option::None
            } else {
                let sq = fx_sqrt_spec(disc);
                let root1 = fx_div_spec(-half_b - sq, a);
                if tmin < root1 < tmax {
                    Option::Some(root1)
                } else {
                    let root2 = fx_div_spec(-half_b + sq, a);
                    if tmin < root2 < tmax {
                        Option::Some(root2)
                    } else {
                        Option::None
                    }
                }
            }
        }
    }
}

/// The outward normal at a point of the sphere: the offset from the center,
/// divided by the radius.
pub open spec fn sphere_outward(s: Sphere, p: (int, int, int)) -> (int, int, int) {
    (
        fx_div_spec(p.0 - s.center.x, s.radius as int),
        fx_div_spec(p.1 - s.center.y, s.radius as int),
        fx_div_spec(p.2 - s.center.z, s.radius as int),
    )
}

/// Whether the ray meets the surface from outside.
pub open spec fn sphere_front_face(s: Sphere, r: Ray, p: (int, int, int)) -> bool {
    tup_dot3(view3(r.direction), sphere_outward(s, p)) < 0
}

/// The front-face-corrected normal at the hit point.
pub open spec fn sphere_normal(s: Sphere, r: Ray, p: (int, int, int)) -> (int, int, int) {
    let ow = sphere_outward(s, p);
    if sphere_front_face(s, r, p) {
        ow
    } else {
        (-ow.0, -ow.1, -ow.2)
    }
}

/// The hit point lies in the renderer's working volume.
pub open spec fn point_in_volume(p: (int, int, int)) -> bool {
    &&& -POS_MAX <= p.0 <= POS_MAX
    &&& -POS_MAX <= p.1 <= POS_MAX
    &&& -POS_MAX <= p.2 <= POS_MAX
}

/// The corrected normal is unit length up to the rounding slack of
/// `normal_wf`.
pub open spec fn normal_in_range(n: (int, int, int)) -> bool {
    &&& -2 * (FX_ONE as int) <= n.0 <= 2 * (FX_ONE as int)
    &&& -2 * (FX_ONE as int) <= n.1 <= 2 * (FX_ONE as int)
    &&& -2 * (FX_ONE as int) <= n.2 <= 2 * (FX_ONE as int)
    &&& FX_ONE - 4096 <= tup_dot3(n, n) <= FX_ONE + 4096
}

/// The geometric outcome of intersecting a sphere: parameter, point,
/// corrected normal and facing, or nothing.
pub open spec fn sphere_hit_geom(s: Sphere, r: Ray, tmin: int, tmax: int) -> Option<
    (int, (int, int, int), (int, int, int), bool),
> {
    match sphere_root(s, r, tmin, tmax) {
        Option::None => Option::None,
        Option::Some(t) => {
            let p = ray_at_spec(r, t);
            let nrm = sphere_normal(s, r, p);
            if point_in_volume(p) && normal_in_range(nrm) {
                Option::Some((t, p, nrm, sphere_front_face(s, r, p)))
            } else {
                Option::None
            }
        },
    }
}

/// Narrowing the search interval's upper bound only removes farther hits: a
/// hit found under the narrowed bound is exactly the hit the wider interval
/// yields, and where the narrowed search finds nothing, any hit in the wider
/// interval lies at or beyond the narrowed bound. This is what lets the
/// nearest-hit search tighten its interval member by member.
pub proof fn lemma_sphere_hit_narrow(s: Sphere, r: Ray, tmin: int, tmid: int, tmax: int)
    requires
        tmid <= tmax,
    ensures
        sphere_hit_geom(s, r, tmin, tmid) is Some ==> sphere_hit_geom(s, r, tmin, tmax)
            == sphere_hit_geom(s, r, tmin, tmid),
        (sphere_hit_geom(s, r, tmin, tmid) is None && sphere_hit_geom(s, r, tmin, tmax) is Some)
            ==> sphere_hit_geom(s, r, tmin, tmax)->Some_0.0 >= tmid,
{
    if s.radius > 0 {
        let a = sphere_a(r);
        if a > 0 {
            let half_b = sphere_half_b(s, r);
            let disc = sphere_disc(s, r);
            if disc >= 0 {
                crate::fixed::lemma_sqrt_nat(disc * (FX_ONE as int));
                let sq = fx_sqrt_spec(disc);
                crate::fixed::lemma_tdiv_mono(
                    (-half_b - sq) * (FX_ONE as int),
                    (-half_b + sq) * (FX_ONE as int),
                    a,
                );
            }
        }
    }
}


/// The fixed-point products in the head-on and tangent configurations are
/// exact when the lengths are multiples of the fractional grid step.
proof fn lemma_exact_square(d: int)
    requires
        d >= 0,
        d % 256 == 0,
    ensures
        tdiv(d * d, FX_ONE as int) == (d / 256) * (d / 256),
        d * d == ((d / 256) * (d / 256)) * (FX_ONE as int),
{
    let k = d / 256;
    vstd::arithmetic::div_mod::lemma_fundamental_div_mod(d, 256);
    assert(d == 256 * k);
    assert(d * d == (k * k) * 65536) by (nonlinear_arith)
        requires
            d == 256 * k,
    ;
    lemma_tdiv_exact(k * k, FX_ONE as int);
}

/// **Head-on intersection.** A ray looking straight down the axis at a
/// sphere's center from outside, with the separation and the radius on the
/// fractional grid, yields exactly one record: the smaller root, with
/// parameter `t == distance - radius`, hit point one radius short of the
/// center, and normal exactly opposite the ray's unit direction.
pub proof fn lemma_head_on_hit(s: Sphere, r: Ray, d: int, tmin: int, tmax: int)
    requires
        s.radius > 0,
        s.radius % 256 == 0,
        d % 256 == 0,
        s.radius < d,
        r.direction.x == 0,
        r.direction.y == 0,
        r.direction.z == -(FX_ONE as int),
        s.center.x == r.origin.x,
        s.center.y == r.origin.y,
        s.center.z == r.origin.z - d,
        tmin < d - s.radius < tmax,
        bounded(r.origin, 0x800_0000),
        d <= 0x800_0000,
    ensures
        sphere_hit_geom(s, r, tmin, tmax) == Option::Some(
            (
                d - s.radius,
                (r.origin.x as int, r.origin.y as int, r.origin.z - (d - s.radius)),
                (0int, 0int, FX_ONE as int),
                true,
            ),
        ),
{
    let f = FX_ONE as int;
    let rad = s.radius as int;
    lemma_tdiv_exact(0, f);
    assert(sphere_oc(s, r) == (0int, 0int, d));
    assert((-f) * (-f) == f * f) by (nonlinear_arith);
    lemma_tdiv_exact(f, f);
    assert(sphere_a(r) == f);
    assert(d * (-f) == (-d) * f) by (nonlinear_arith);
    lemma_tdiv_exact(-d, f);
    assert(sphere_half_b(s, r) == -d);
    lemma_exact_square(d);
    lemma_exact_square(rad);
    let kd = d / 256;
    let kr = rad / 256;
    assert(sphere_c(s, r) == kd * kd - kr * kr);
    assert((-d) * (-d) == d * d) by (nonlinear_arith);
    assert(f * (kd * kd - kr * kr) == (kd * kd - kr * kr) * f) by (nonlinear_arith);
    lemma_tdiv_exact(kd * kd - kr * kr, f);
    assert(sphere_disc(s, r) == kr * kr);
    assert((kr * kr) * f == rad * rad) by {
        lemma_exact_square(rad);
    }
    crate::fixed::lemma_sqrt_square(rad);
    assert(fx_sqrt_spec(kr * kr) == rad);
    assert(-sphere_half_b(s, r) - fx_sqrt_spec(sphere_disc(s, r)) == d - rad);
    lemma_tdiv_exact(d - rad, f);
    assert(fx_div_spec(d - rad, f) == d - rad);
    let t = d - rad;
    assert(sphere_root(s, r, tmin, tmax) == Option::Some(t));
    assert((0int) * t == 0) by (nonlinear_arith);
    assert(tdiv(0, f) == 0) by {
        lemma_tdiv_exact(0, f);
    }
    assert((-f) * t == (-t) * f) by (nonlinear_arith);
    lemma_tdiv_exact(-t, f);
    let p = ray_at_spec(r, t);
    assert(p == (r.origin.x as int, r.origin.y as int, r.origin.z - t));
    assert(p.2 - s.center.z == d - t);
    assert(d - t == rad);
    lemma_tdiv_exact(0, rad);
    assert(rad * f == f * rad) by (nonlinear_arith);
    lemma_tdiv_exact(f, rad);
    assert(sphere_outward(s, p) == (0int, 0int, f));
    assert((-f) * f == (-f) * f);
    lemma_tdiv_exact(-f, f);
    assert(fx_mul_spec(-f, f) == -f) by {
        assert((-f) * f == (-f) * f) by (nonlinear_arith);
    }
    assert(tup_dot3(view3(r.direction), (0int, 0int, f)) == -f);
    assert(sphere_front_face(s, r, p));
    assert(sphere_normal(s, r, p) == (0int, 0int, f));
    assert(point_in_volume(p));
    assert(tup_dot3((0int, 0int, f), (0int, 0int, f)) == f) by {
        lemma_tdiv_exact(f, f);
        lemma_tdiv_exact(0, f);
        assert(f * f == f * f) by (nonlinear_arith);
    }
    assert(normal_in_range((0int, 0int, f)));
}

/// **Tangent ray.** A ray grazing a sphere at exactly one radius of lateral
/// offset, with the along-ray separation on the fractional grid, has a
/// discriminant of exactly zero, so the two candidate roots coincide in the
/// single valid root `t == d`.
pub proof fn lemma_tangent_hit(s: Sphere, r: Ray, d: int, tmin: int, tmax: int)
    requires
        s.radius > 0,
        d > 0,
        d % 256 == 0,
        r.direction.x == FX_ONE as int,
        r.direction.y == 0,
        r.direction.z == 0,
        s.center.x == r.origin.x + d,
        s.center.y == r.origin.y + s.radius,
        s.center.z == r.origin.z,
    ensures
        sphere_disc(s, r) == 0,
        fx_div_spec(-sphere_half_b(s, r) - fx_sqrt_spec(sphere_disc(s, r)), sphere_a(r)) == d,
        fx_div_spec(-sphere_half_b(s, r) + fx_sqrt_spec(sphere_disc(s, r)), sphere_a(r)) == d,
        tmin < d < tmax ==> sphere_root(s, r, tmin, tmax) == Option::Some(d),
{
    let f = FX_ONE as int;
    let rad = s.radius as int;
    lemma_tdiv_exact(0, f);
    lemma_tdiv_exact(f, f);
    assert(sphere_oc(s, r) == (-d, -rad, 0int));
    assert(sphere_a(r) == f) by {
        assert(f * f == f * f) by (nonlinear_arith);
        lemma_tdiv_exact(f, f);
        assert((0int) * 0 == 0) by (nonlinear_arith);
    }
    assert((-d) * f == (-d) * f);
    lemma_tdiv_exact(-d, f);
    assert((-rad) * 0 == 0 && (0int) * 0 == 0) by (nonlinear_arith);
    assert(sphere_half_b(s, r) == -d);
    lemma_exact_square(d);
    let kd = d / 256;
    assert((-d) * (-d) == d * d) by (nonlinear_arith);
    assert((-rad) * (-rad) == rad * rad) by (nonlinear_arith);
    assert(sphere_c(s, r) == kd * kd);
    assert(f * (kd * kd) == (kd * kd) * f) by (nonlinear_arith);
    lemma_tdiv_exact(kd * kd, f);
    assert(sphere_disc(s, r) == 0);
    assert(fx_sqrt_spec(0) == 0) by {
        assert((0int) * f == 0) by (nonlinear_arith);
    }
    lemma_tdiv_exact(d, f);
    assert(d * f == d * f);
    assert(fx_div_spec(d, f) == d);
}

impl Sphere {
    /// A sphere with the given center and material; a negative radius is
    /// clamped to zero, a degenerate point that never intersects.
    pub fn new(center: Point3, radius: i64, material: Material) -> (r: Sphere)
        ensures
            r.center == center,
            r.radius == (if radius < 0 {
                0int
            } else {
                radius as int
            }),
            r.material == material,
    {
        let rad = if radius < 0 {
            0
        } else {
            radius
        };
        Sphere { center, radius: rad, material }
    }

    /// Intersects a ray within the interval. The returned record, if any,
    /// carries exactly the geometry `sphere_hit_geom` selects, and a scatter
    /// outcome of the owned material at that hit. `None` means the
    /// discriminant is negative, both roots fall outside the open interval,
    /// or the root's point or normal leaves the working ranges (see the
    /// module note on that last, model-imposed case).
    pub fn hit(&self, ray: &Ray, interval: Interval) -> (r: Option<HitRecord>)
        requires
            sphere_wf(*self),
            ray_wf(*ray),
            0 <= interval.min,
            interval.max <= T_MAX,
        ensures
            match r {
                Option::None => sphere_hit_geom(
                    *self,
                    *ray,
                    interval.min as int,
                    interval.max as int,
                ) is None,
                Option::Some(hr) => {
                    &&& sphere_hit_geom(*self, *ray, interval.min as int, interval.max as int)
                        == Option::Some(
                        (hr.t as int, view3(hr.point), view3(hr.normal), hr.front_face),
                    )
                    &&& interval.min < hr.t < interval.max
                    &&& bounded(hr.point, POS_MAX as int)
                    &&& normal_wf(hr.normal)
                    &&& scatter_ok(
                        self.material,
                        *ray,
                        hr.point,
                        hr.normal,
                        hr.front_face,
                        hr.scatter_result,
                    )
                },
            },
    {
        if self.radius <= 0 {
            return Option::None;
        }
        let oc = ray.origin().minus(self.center);
        proof {
            lemma_dot_bounds(oc, ray.direction, 0x2000_0000, 0x100_0000);
            lemma_dot_bounds(ray.direction, ray.direction, 0x100_0000, 0x100_0000);
            lemma_dot_bounds(oc, oc, 0x2000_0000, 0x2000_0000);
            lemma_mul_mag(self.radius as int, self.radius as int, 0x1000_0000, 0x1000_0000);
            lemma_fx_mul_bound(self.radius as int, self.radius as int, 0x1000_0000, 0x1000_0000);
        }
        let a = ray.direction().dot(ray.direction());
        let half_b = oc.dot(ray.direction());
        let c = oc.dot(oc) - fx_mul(self.radius, self.radius);
        proof {
            lemma_mul_mag(half_b as int, half_b as int, 0x60_0000_0000, 0x60_0000_0000);
            lemma_fx_mul_bound(half_b as int, half_b as int, 0x60_0000_0000, 0x60_0000_0000);
            lemma_mul_mag(a as int, c as int, 0x3_0000_0000, 0xD00_0000_0000);
            lemma_fx_mul_bound(a as int, c as int, 0x3_0000_0000, 0xD00_0000_0000);
        }
        let discriminant = fx_mul(half_b, half_b) - fx_mul(a, c);
        if discriminant < 0 {
            return Option::None;
        }
        let sqrtd = fx_sqrt(discriminant);
        proof {
            lemma_sqrt_below((discriminant as int) * (FX_ONE as int), 0x100_0000_0000);
            lemma_tdiv_bound(
                (-half_b - sqrtd) * (FX_ONE as int),
                a as int,
                0x160_0000_0000_0000_0000,
            );
            lemma_tdiv_bound(
                (-half_b + sqrtd) * (FX_ONE as int),
                a as int,
                0x160_0000_0000_0000_0000,
            );
        }
        let mut root = fx_div(-half_b - sqrtd, a);
        if !interval.surrounds(root) {
            root = fx_div(-half_b + sqrtd, a);
            if !interval.surrounds(root) {
                return Option::None;
            }
        }
        let point = ray.at(root);
        if point.x > POS_MAX || point.x < -POS_MAX || point.y > POS_MAX || point.y < -POS_MAX
            || point.z > POS_MAX || point.z < -POS_MAX {
            return Option::None;
        }
        let ocp = point.minus(self.center);
        proof {
            lemma_tdiv_bound(ocp.x * (FX_ONE as int), self.radius as int, 0x2000_0000_0000);
            lemma_tdiv_bound(ocp.y * (FX_ONE as int), self.radius as int, 0x2000_0000_0000);
            lemma_tdiv_bound(ocp.z * (FX_ONE as int), self.radius as int, 0x2000_0000_0000);
        }
        let outward_normal = ocp.divided(self.radius);
        proof {
            lemma_dot_bounds(ray.direction, outward_normal, 0x100_0000, 0x2000_0000_0000);
        }
        let normal = HitRecord::calculate_face_normal(ray, outward_normal);
        let front_face = ray.direction().dot(outward_normal) < 0;
        if normal.x > 2 * FX_ONE || normal.x < -2 * FX_ONE || normal.y > 2 * FX_ONE || normal.y < -2
            * FX_ONE || normal.z > 2 * FX_ONE || normal.z < -2 * FX_ONE {
            return Option::None;
        }
        proof {
            lemma_dot_bounds(normal, normal, 0x2_0000, 0x2_0000);
        }
        let n2 = normal.length_squared();
        if n2 < FX_ONE - 4096 || n2 > FX_ONE + 4096 {
            return Option::None;
        }
        let probe = HitRecord { point, normal, t: root, front_face, scatter_result: Option::None };
        let scatter_result = self.material.scatter(ray, &probe);
        Option::Some(HitRecord { point, normal, t: root, front_face, scatter_result })
    }
}

} // verus!
