//! A small ray tracer over fixed-point arithmetic.
//!
//! Geometry, colors and ray parameters are real numbers scaled by
//! `fixed::FX_ONE` and stored in `i64`, so that every computation the
//! renderer performs has an exact integer meaning that contracts can
//! state and proofs can check.

use vstd::prelude::*;

verus! {

/// Malformed configuration, rejected at construction time.
#[derive(Clone, Copy, PartialEq, Eq, Structural, Debug)]
pub enum ConfigError {
    NonPositiveRefractionIndex,
    ZeroSamplesPerPixel,
    ZeroImageDimensions,
    ParameterOutOfRange,
}

} // verus!

pub mod fixed;
pub mod rng;
pub mod vec3;
pub mod interval;
pub mod ray;
pub mod color;
pub mod hittable;
pub mod material;
pub mod sphere;
pub mod hittable_list;
pub mod camera;
