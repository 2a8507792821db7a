//! Parametric rays.

use crate::fixed::{fx_mul, fx_mul_spec, lemma_fx_mul_bound, lemma_mul_mag};
use crate::vec3::{bounded, norm2, Point3, Vec3};
use vstd::prelude::*;

verus! {

/// A ray with an origin and a direction; `at(t)` walks `t` direction-lengths
/// from the origin.
#[derive(Clone, Copy, PartialEq, Eq, Structural, Debug)]
pub struct Ray {
    pub origin: Point3,
    pub direction: Vec3,
}

/// The coordinate volume the renderer works in: positions stay within
/// 4096 units of the origin.
pub const POS_MAX: i64 = 0x1000_0000;

/// Ray directions stay within 256 units per component.
pub const DIR_MAX: i64 = 0x100_0000;

/// The largest admissible ray parameter, standing in for infinity.
pub const T_MAX: i64 = 0x4000_0000;

/// A ray the renderer can trace: bounded origin and direction, and a
/// direction long enough to normalize.
pub open spec fn ray_wf(r: Ray) -> bool {
    &&& bounded(r.origin, POS_MAX as int)
    &&& bounded(r.direction, DIR_MAX as int)
    &&& norm2(r.direction) >= 1
}

/// Where the ray is after parameter `t`, componentwise in fixed point.
pub open spec fn ray_at_spec(r: Ray, t: int) -> (int, int, int) {
    (
        r.origin.x + fx_mul_spec(r.direction.x as int, t),
        r.origin.y + fx_mul_spec(r.direction.y as int, t),
        r.origin.z + fx_mul_spec(r.direction.z as int, t),
    )
}

impl Ray {
    /// Builds a ray from an origin and a direction.
    pub fn new(origin: Point3, direction: Vec3) -> (r: Ray)
        ensures
            r.origin == origin,
            r.direction == direction,
    {
        Ray { origin, direction }
    }

    /// Evaluates `origin + t * direction`.
    pub fn at(&self, t: i64) -> (r: Point3)
        requires
            bounded(self.origin, 0x100_0000_0000),
            bounded(self.direction, 0x400_0000),
            -0x4_0000_0000 <= t <= 0x4_0000_0000,
        ensures
            (r.x as int, r.y as int, r.z as int) == ray_at_spec(*self, t as int),
    {
        proof {
            lemma_mul_mag(self.direction.x as int, t as int, 0x400_0000, 0x4_0000_0000);
            lemma_mul_mag(self.direction.y as int, t as int, 0x400_0000, 0x4_0000_0000);
            lemma_mul_mag(self.direction.z as int, t as int, 0x400_0000, 0x4_0000_0000);
            lemma_fx_mul_bound(self.direction.x as int, t as int, 0x400_0000, 0x4_0000_0000);
            lemma_fx_mul_bound(self.direction.y as int, t as int, 0x400_0000, 0x4_0000_0000);
            lemma_fx_mul_bound(self.direction.z as int, t as int, 0x400_0000, 0x4_0000_0000);
        }
        Vec3 {
            x: self.origin.x + fx_mul(self.direction.x, t),
            y: self.origin.y + fx_mul(self.direction.y, t),
            z: self.origin.z + fx_mul(self.direction.z, t),
        }
    }

    /// The ray's origin.
    pub fn origin(&self) -> (r: Point3)
        ensures
            r == self.origin,
    {
        self.origin
    }

    /// The ray's direction.
    pub fn direction(&self) -> (r: Vec3)
        ensures
            r == self.direction,
    {
        self.direction
    }
}

} // verus!
