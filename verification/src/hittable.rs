//! Hit records and the surface abstraction.

use crate::fixed::FX_ONE;
use crate::interval::Interval;
use crate::material::{scatter_ok, Material, ScatterResult};
use crate::ray::{ray_wf, Ray, POS_MAX, T_MAX};
use crate::sphere::{lemma_sphere_hit_narrow, sphere_hit_geom, sphere_wf, Sphere};
use crate::vec3::{bounded, dot3, dot_fits, norm2, view3, Point3, Vec3};
use vstd::prelude::*;

verus! {

/// A front-face-corrected surface normal: unit length up to the slack the
/// fixed-point root and division rounding can introduce (one sixteenth),
/// and never degenerate.
pub open spec fn normal_wf(n: Vec3) -> bool {
    &&& bounded(n, 2 * (FX_ONE as int))
    &&& FX_ONE - 4096 <= norm2(n) <= FX_ONE + 4096
}

/// The record of a successful intersection: the point, the corrected
/// normal, the ray parameter, the facing flag, and the scatter outcome the
/// surface's material produced at intersection time.
#[derive(Clone, Copy)]
pub struct HitRecord {
    pub point: Point3,
    pub normal: Vec3,
    pub t: i64,
    pub front_face: bool,
    pub scatter_result: Option<ScatterResult>,
}

/// The geometric fields of a record lie in the renderer's working volume.
pub open spec fn hit_geom_wf(hr: HitRecord) -> bool {
    &&& bounded(hr.point, POS_MAX as int)
    &&& normal_wf(hr.normal)
}

impl HitRecord {
    /// Flips an outward normal against the incoming ray: the returned
    /// normal always opposes the ray's direction.
    pub fn calculate_face_normal(ray: &Ray, outward_normal: Vec3) -> (r: Vec3)
        requires
            dot_fits(ray.direction, outward_normal),
            bounded(outward_normal, 0x7fff_ffff_ffff_ffff),
        ensures
            dot3(ray.direction, outward_normal) < 0 ==> r == outward_normal,
            dot3(ray.direction, outward_normal) >= 0 ==> r.x == -(outward_normal.x as int) && r.y
                == -(outward_normal.y as int) && r.z == -(outward_normal.z as int),
    {
        let front_face = ray.direction().dot(outward_normal) < 0;
        if front_face {
            outward_normal
        } else {
            outward_normal.neg()
        }
    }
}

/// The closed set of surfaces a scene can hold; new variants (planes,
/// triangles, compound meshes) are expected extensions.
#[derive(Clone, Copy)]
pub enum Hittable {
    Sphere(Sphere),
}

/// A surface the renderer can intersect.
pub open spec fn hittable_wf(h: Hittable) -> bool {
    match h {
        Hittable::Sphere(s) => sphere_wf(s),
    }
}

/// The geometric outcome of intersecting a surface.
pub open spec fn hittable_geom(h: Hittable, r: Ray, tmin: int, tmax: int) -> Option<
    (int, (int, int, int), (int, int, int), bool),
> {
    match h {
        Hittable::Sphere(s) => sphere_hit_geom(s, r, tmin, tmax),
    }
}

/// The material a surface answers hits with.
pub open spec fn hittable_material(h: Hittable) -> Material {
    match h {
        Hittable::Sphere(s) => s.material,
    }
}

/// `lemma_sphere_hit_narrow`, lifted over the surface variants.
pub proof fn lemma_hittable_narrow(h: Hittable, r: Ray, tmin: int, tmid: int, tmax: int)
    requires
        tmid <= tmax,
    ensures
        hittable_geom(h, r, tmin, tmid) is Some ==> hittable_geom(h, r, tmin, tmax)
            == hittable_geom(h, r, tmin, tmid),
        (hittable_geom(h, r, tmin, tmid) is None && hittable_geom(h, r, tmin, tmax) is Some)
            ==> hittable_geom(h, r, tmin, tmax)->Some_0.0 >= tmid,
{
    match h {
        Hittable::Sphere(s) => lemma_sphere_hit_narrow(s, r, tmin, tmid, tmax),
    }
}

impl Hittable {
    /// Intersects a ray within the interval; see `Sphere::hit` for the
    /// contract the record satisfies.
    pub fn hit(&self, ray: &Ray, interval: Interval) -> (r: Option<HitRecord>)
        requires
            hittable_wf(*self),
            ray_wf(*ray),
            0 <= interval.min,
            interval.max <= T_MAX,
        ensures
            match r {
                Option::None => hittable_geom(
                    *self,
                    *ray,
                    interval.min as int,
                    interval.max as int,
                ) is None,
                Option::Some(hr) => {
                    &&& hittable_geom(*self, *ray, interval.min as int, interval.max as int)
                        == Option::Some(
                        (hr.t as int, view3(hr.point), view3(hr.normal), hr.front_face),
                    )
                    &&& interval.min < hr.t < interval.max
                    &&& bounded(hr.point, POS_MAX as int)
                    &&& normal_wf(hr.normal)
                    &&& scatter_ok(
                        hittable_material(*self),
                        *ray,
                        hr.point,
                        hr.normal,
                        hr.front_face,
                        hr.scatter_result,
                    )
                },
            },
    {
        match self {
            Hittable::Sphere(s) => s.hit(ray, interval),
        }
    }
}

} // verus!
