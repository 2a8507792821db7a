//! Three-component fixed-point vectors.
//!
//! `Vec3` doubles as a point and as a color, exactly as in the classic
//! ray-tracing layout. Every arithmetic method states its result
//! componentwise over the fixed-point specs, so callers reason about the
//! rounded integer values the renderer really computes.

use crate::fixed::{
    dot_term_fits, fx_div, fx_div_spec, fx_fits, fx_mul, fx_mul_spec, fx_sqrt, fx_sqrt_spec,
    lemma_fx_mul_neg, lemma_fx_mul_bound, lemma_mul_mag, lemma_sqrt_at_least, lemma_sqrt_below,
    lemma_sqrt_nat, lemma_tdiv_bound, lemma_tdiv_exact, lemma_tdiv_sign, FX_ONE,
};
use crate::rng::random_double_range;
use vstd::arithmetic::div_mod::{lemma_div_is_ordered, lemma_div_is_ordered_by_denominator};
use vstd::prelude::*;

verus! {

/// A vector of three fixed-point components.
#[derive(Clone, Copy, PartialEq, Eq, Structural, Debug)]
pub struct Vec3 {
    pub x: i64,
    pub y: i64,
    pub z: i64,
}

/// Points in space share the vector representation.
pub type Point3 = Vec3;

/// The components of a vector as unbounded integers, for spec arithmetic.
pub open spec fn view3(v: Vec3) -> (int, int, int) {
    (v.x as int, v.y as int, v.z as int)
}

/// Every component within `[-m, m]`.
pub open spec fn bounded(v: Vec3, m: int) -> bool {
    &&& -m <= v.x <= m
    &&& -m <= v.y <= m
    &&& -m <= v.z <= m
}

/// The fixed-point dot product: three truncated products, summed.
pub open spec fn dot3(u: Vec3, v: Vec3) -> int {
    fx_mul_spec(u.x as int, v.x as int) + fx_mul_spec(u.y as int, v.y as int) + fx_mul_spec(
        u.z as int,
        v.z as int,
    )
}

/// The fixed-point squared length.
pub open spec fn norm2(v: Vec3) -> int {
    dot3(v, v)
}

/// The fixed-point length: square root of the squared length.
pub open spec fn len_fx(v: Vec3) -> int {
    fx_sqrt_spec(norm2(v))
}

/// The products of a dot-product pair are small enough to accumulate.
pub open spec fn dot_fits(u: Vec3, v: Vec3) -> bool {
    &&& dot_term_fits(u.x * v.x)
    &&& dot_term_fits(u.y * v.y)
    &&& dot_term_fits(u.z * v.z)
}

/// Each term of `dot3` is within `2^60`; lets the three-term sum accumulate
/// in an `i64` and bounds the total by `3 * 2^60`.
pub proof fn lemma_dot3_bound(u: Vec3, v: Vec3)
    requires
        dot_fits(u, v),
    ensures
        -0x1000_0000_0000_0000 <= fx_mul_spec(u.x as int, v.x as int) <= 0x1000_0000_0000_0000,
        -0x1000_0000_0000_0000 <= fx_mul_spec(u.y as int, v.y as int) <= 0x1000_0000_0000_0000,
        -0x1000_0000_0000_0000 <= fx_mul_spec(u.z as int, v.z as int) <= 0x1000_0000_0000_0000,
        -0x3000_0000_0000_0000 <= dot3(u, v) <= 0x3000_0000_0000_0000,
{
    lemma_tdiv_bound(u.x * v.x, FX_ONE as int, 0x1000_0000_0000_0000_0000);
    lemma_tdiv_bound(u.y * v.y, FX_ONE as int, 0x1000_0000_0000_0000_0000);
    lemma_tdiv_bound(u.z * v.z, FX_ONE as int, 0x1000_0000_0000_0000_0000);
}

/// The squared length is a sum of squares, hence nonnegative.
pub proof fn lemma_norm2_nonneg(v: Vec3)
    ensures
        norm2(v) >= 0,
{
    assert(v.x * v.x >= 0 && v.y * v.y >= 0 && v.z * v.z >= 0) by (nonlinear_arith);
    lemma_fx_mul_bound(v.x as int, v.x as int, abs_i64(v.x), abs_i64(v.x));
    lemma_fx_mul_bound(v.y as int, v.y as int, abs_i64(v.y), abs_i64(v.y));
    lemma_fx_mul_bound(v.z as int, v.z as int, abs_i64(v.z), abs_i64(v.z));
}

/// The magnitude of a component as an unbounded integer.
pub open spec fn abs_i64(a: i64) -> int {
    if a >= 0 {
        a as int
    } else {
        -(a as int)
    }
}

/// Negating one side negates the fixed-point dot product.
pub proof fn lemma_dot3_neg(u: Vec3, nu: Vec3, v: Vec3)
    requires
        nu.x == -(u.x as int),
        nu.y == -(u.y as int),
        nu.z == -(u.z as int),
    ensures
        dot3(nu, v) == -dot3(u, v),
{
    lemma_fx_mul_neg(u.x as int, v.x as int);
    lemma_fx_mul_neg(u.y as int, v.y as int);
    lemma_fx_mul_neg(u.z as int, v.z as int);
}

impl Vec3 {
    /// Builds a vector from its three components.
    pub fn new(e0: i64, e1: i64, e2: i64) -> (r: Vec3)
        ensures
            r.x == e0,
            r.y == e1,
            r.z == e2,
    {
        Vec3 { x: e0, y: e1, z: e2 }
    }

    /// Copies a vector; points, colors and vectors share the layout.
    pub fn from_vec3(v: Vec3) -> (r: Vec3)
        ensures
            r == v,
    {
        Vec3 { x: v.x, y: v.y, z: v.z }
    }

    /// The first component.
    pub fn x(&self) -> (r: i64)
        ensures
            r == self.x,
    {
        self.x
    }

    /// The second component.
    pub fn y(&self) -> (r: i64)
        ensures
            r == self.y,
    {
        self.y
    }

    /// The third component.
    pub fn z(&self) -> (r: i64)
        ensures
            r == self.z,
    {
        self.z
    }

    /// Componentwise sum.
    pub fn plus(self, other: Vec3) -> (r: Vec3)
        requires
            bounded(self, 0x3fff_ffff_ffff_ffff),
            bounded(other, 0x3fff_ffff_ffff_ffff),
        ensures
            r.x == self.x + other.x,
            r.y == self.y + other.y,
            r.z == self.z + other.z,
    {
        Vec3 { x: self.x + other.x, y: self.y + other.y, z: self.z + other.z }
    }

    /// Componentwise difference.
    pub fn minus(self, other: Vec3) -> (r: Vec3)
        requires
            bounded(self, 0x3fff_ffff_ffff_ffff),
            bounded(other, 0x3fff_ffff_ffff_ffff),
        ensures
            r.x == self.x - other.x,
            r.y == self.y - other.y,
            r.z == self.z - other.z,
    {
        Vec3 { x: self.x - other.x, y: self.y - other.y, z: self.z - other.z }
    }

    /// Componentwise negation.
    pub fn neg(self) -> (r: Vec3)
        requires
            bounded(self, 0x7fff_ffff_ffff_ffff),
        ensures
            r.x == -(self.x as int),
            r.y == -(self.y as int),
            r.z == -(self.z as int),
    {
        Vec3 { x: -self.x, y: -self.y, z: -self.z }
    }

    /// Scales by a fixed-point factor.
    pub fn scaled(self, t: i64) -> (r: Vec3)
        requires
            fx_fits(self.x * t),
            fx_fits(self.y * t),
            fx_fits(self.z * t),
        ensures
            r.x == fx_mul_spec(self.x as int, t as int),
            r.y == fx_mul_spec(self.y as int, t as int),
            r.z == fx_mul_spec(self.z as int, t as int),
    {
        Vec3 { x: fx_mul(self.x, t), y: fx_mul(self.y, t), z: fx_mul(self.z, t) }
    }

    /// Componentwise (Hadamard) product; how attenuation filters a color.
    pub fn comp_mul(self, other: Vec3) -> (r: Vec3)
        requires
            fx_fits(self.x * other.x),
            fx_fits(self.y * other.y),
            fx_fits(self.z * other.z),
        ensures
            r.x == fx_mul_spec(self.x as int, other.x as int),
            r.y == fx_mul_spec(self.y as int, other.y as int),
            r.z == fx_mul_spec(self.z as int, other.z as int),
    {
        Vec3 {
            x: fx_mul(self.x, other.x),
            y: fx_mul(self.y, other.y),
            z: fx_mul(self.z, other.z),
        }
    }

    /// Divides by a positive fixed-point factor.
    pub fn divided(self, t: i64) -> (r: Vec3)
        requires
            t > 0,
            -0x7fff_ffff_ffff_ffff <= fx_div_spec(self.x as int, t as int)
                <= 0x7fff_ffff_ffff_ffff,
            -0x7fff_ffff_ffff_ffff <= fx_div_spec(self.y as int, t as int)
                <= 0x7fff_ffff_ffff_ffff,
            -0x7fff_ffff_ffff_ffff <= fx_div_spec(self.z as int, t as int)
                <= 0x7fff_ffff_ffff_ffff,
        ensures
            r.x == fx_div_spec(self.x as int, t as int),
            r.y == fx_div_spec(self.y as int, t as int),
            r.z == fx_div_spec(self.z as int, t as int),
    {
        Vec3 { x: fx_div(self.x, t), y: fx_div(self.y, t), z: fx_div(self.z, t) }
    }

    /// The fixed-point dot product with another vector.
    pub fn dot(self, other: Vec3) -> (r: i64)
        requires
            dot_fits(self, other),
        ensures
            r == dot3(self, other),
    {
        proof {
            lemma_dot3_bound(self, other);
        }
        fx_mul(self.x, other.x) + fx_mul(self.y, other.y) + fx_mul(self.z, other.z)
    }

    /// The squared length, a nonnegative fixed-point value.
    pub fn length_squared(&self) -> (r: i64)
        requires
            dot_fits(*self, *self),
        ensures
            r == norm2(*self),
            r >= 0,
    {
        proof {
            lemma_norm2_nonneg(*self);
        }
        self.dot(*self)
    }

    /// The length: fixed-point square root of the squared length.
    pub fn length(&self) -> (r: i64)
        requires
            dot_fits(*self, *self),
        ensures
            r == len_fx(*self),
            r >= 0,
    {
        fx_sqrt(self.length_squared())
    }

    /// Scales to (approximately) unit length. The caller keeps the vector
    /// away from zero, as the renderer's near-zero fallbacks do.
    pub fn unit_vector(self) -> (r: Vec3)
        requires
            dot_fits(self, self),
            norm2(self) >= 1,
            bounded(self, 0x4000_0000_0000),
        ensures
            r.x == fx_div_spec(self.x as int, len_fx(self)),
            r.y == fx_div_spec(self.y as int, len_fx(self)),
            r.z == fx_div_spec(self.z as int, len_fx(self)),
            len_fx(self) >= 1,
    {
        let len = self.length();
        proof {
            lemma_sqrt_at_least(norm2(self) * (FX_ONE as int), 1);
            lemma_tdiv_bound(self.x * (FX_ONE as int), len as int, 0x4000_0000_0000_0000);
            lemma_tdiv_bound(self.y * (FX_ONE as int), len as int, 0x4000_0000_0000_0000);
            lemma_tdiv_bound(self.z * (FX_ONE as int), len as int, 0x4000_0000_0000_0000);
        }
        self.divided(len)
    }

    /// Tests whether every component is below the near-zero threshold, the
    /// guard against degenerate scatter directions.
    pub fn near_zero(&self) -> (r: bool)
        ensures
            r == (-(NEAR_ZERO_EPS as int) < self.x < NEAR_ZERO_EPS && -(NEAR_ZERO_EPS as int)
                < self.y < NEAR_ZERO_EPS && -(NEAR_ZERO_EPS as int) < self.z < NEAR_ZERO_EPS),
    {
        -NEAR_ZERO_EPS < self.x && self.x < NEAR_ZERO_EPS && -NEAR_ZERO_EPS < self.y && self.y
            < NEAR_ZERO_EPS && -NEAR_ZERO_EPS < self.z && self.z < NEAR_ZERO_EPS
    }

    /// The cross product, each component a difference of truncated products.
    pub fn cross(u: Vec3, v: Vec3) -> (r: Vec3)
        requires
            dot_term_fits(u.y * v.z),
            dot_term_fits(u.z * v.y),
            dot_term_fits(u.z * v.x),
            dot_term_fits(u.x * v.z),
            dot_term_fits(u.x * v.y),
            dot_term_fits(u.y * v.x),
        ensures
            r.x == fx_mul_spec(u.y as int, v.z as int) - fx_mul_spec(u.z as int, v.y as int),
            r.y == fx_mul_spec(u.z as int, v.x as int) - fx_mul_spec(u.x as int, v.z as int),
            r.z == fx_mul_spec(u.x as int, v.y as int) - fx_mul_spec(u.y as int, v.x as int),
    {
        proof {
            lemma_tdiv_bound(u.y * v.z, FX_ONE as int, 0x1000_0000_0000_0000_0000);
            lemma_tdiv_bound(u.z * v.y, FX_ONE as int, 0x1000_0000_0000_0000_0000);
            lemma_tdiv_bound(u.z * v.x, FX_ONE as int, 0x1000_0000_0000_0000_0000);
            lemma_tdiv_bound(u.x * v.z, FX_ONE as int, 0x1000_0000_0000_0000_0000);
            lemma_tdiv_bound(u.x * v.y, FX_ONE as int, 0x1000_0000_0000_0000_0000);
            lemma_tdiv_bound(u.y * v.x, FX_ONE as int, 0x1000_0000_0000_0000_0000);
        }
        Vec3 {
            x: fx_mul(u.y, v.z) - fx_mul(u.z, v.y),
            y: fx_mul(u.z, v.x) - fx_mul(u.x, v.z),
            z: fx_mul(u.x, v.y) - fx_mul(u.y, v.x),
        }
    }

    /// A vector with each component uniform in `[0, 1)`.
    pub fn random() -> (r: Vec3)
        ensures
            bounded(r, FX_ONE as int),
            0 <= r.x < FX_ONE,
            0 <= r.y < FX_ONE,
            0 <= r.z < FX_ONE,
    {
        Vec3 {
            x: random_double_range(0, FX_ONE),
            y: random_double_range(0, FX_ONE),
            z: random_double_range(0, FX_ONE),
        }
    }

    /// A vector with each component uniform in `[min, max)`.
    pub fn random_range(min: i64, max: i64) -> (r: Vec3)
        requires
            min <= max,
            max - min <= 0x7fff_ffff_ffff,
            -0x3fff_ffff_ffff_ffff <= min,
            max <= 0x3fff_ffff_ffff_ffff,
        ensures
            min <= r.x <= max,
            min <= r.y <= max,
            min <= r.z <= max,
            min < max ==> r.x < max && r.y < max && r.z < max,
    {
        Vec3 {
            x: random_double_range(min, max),
            y: random_double_range(min, max),
            z: random_double_range(min, max),
        }
    }
}

/// The near-zero threshold on a single component: the smallest magnitude
/// whose square is still one fixed-point step, so a vector that is not
/// near-zero has a positive squared length.
pub const NEAR_ZERO_EPS: i64 = 256;

/// A vector with some component at or above the near-zero threshold has a
/// positive squared length.
pub proof fn lemma_norm2_from_big_comp(v: Vec3)
    requires
        abs_i64(v.x) >= NEAR_ZERO_EPS || abs_i64(v.y) >= NEAR_ZERO_EPS || abs_i64(v.z)
            >= NEAR_ZERO_EPS,
    ensures
        norm2(v) >= 1,
{
    assert(v.x * v.x >= 0 && v.y * v.y >= 0 && v.z * v.z >= 0) by (nonlinear_arith);
    lemma_tdiv_sign(v.x * v.x, FX_ONE as int);
    lemma_tdiv_sign(v.y * v.y, FX_ONE as int);
    lemma_tdiv_sign(v.z * v.z, FX_ONE as int);
    if abs_i64(v.x) >= NEAR_ZERO_EPS {
        assert(v.x * v.x >= 65536) by (nonlinear_arith)
            requires
                v.x >= 256 || v.x <= -256,
        ;
        lemma_div_is_ordered(65536, v.x * v.x, FX_ONE as int);
    } else if abs_i64(v.y) >= NEAR_ZERO_EPS {
        assert(v.y * v.y >= 65536) by (nonlinear_arith)
            requires
                v.y >= 256 || v.y <= -256,
        ;
        lemma_div_is_ordered(65536, v.y * v.y, FX_ONE as int);
    } else {
        assert(v.z * v.z >= 65536) by (nonlinear_arith)
            requires
                v.z >= 256 || v.z <= -256,
        ;
        lemma_div_is_ordered(65536, v.z * v.z, FX_ONE as int);
    }
}

/// A normalized vector has components within twice the unit scale, and the
/// length it was divided by is at least the resolution of one unit.
pub proof fn lemma_unit_bounded(v: Vec3)
    requires
        dot_fits(v, v),
        norm2(v) >= 1,
    ensures
        len_fx(v) >= 256,
        -2 * (FX_ONE as int) <= fx_div_spec(v.x as int, len_fx(v)) <= 2 * (FX_ONE as int),
        -2 * (FX_ONE as int) <= fx_div_spec(v.y as int, len_fx(v)) <= 2 * (FX_ONE as int),
        -2 * (FX_ONE as int) <= fx_div_spec(v.z as int, len_fx(v)) <= 2 * (FX_ONE as int),
{
    let n2 = norm2(v);
    let nf = n2 * (FX_ONE as int);
    lemma_sqrt_at_least(nf, 256);
    lemma_sqrt_nat(nf);
    let l = len_fx(v);
    assert((l + 1) * (l + 1) == l * l + 2 * l + 1) by (nonlinear_arith);
    assert(2 * l <= l * l) by (nonlinear_arith)
        requires
            l >= 2,
    ;
    assert(nf <= 2 * (l * l));
    assert(v.x * v.x >= 0 && v.y * v.y >= 0 && v.z * v.z >= 0) by (nonlinear_arith);
    lemma_tdiv_sign(v.x * v.x, FX_ONE as int);
    lemma_tdiv_sign(v.y * v.y, FX_ONE as int);
    lemma_tdiv_sign(v.z * v.z, FX_ONE as int);
    lemma_unit_comp_bound(v.x, n2, l);
    lemma_unit_comp_bound(v.y, n2, l);
    lemma_unit_comp_bound(v.z, n2, l);
}

/// One component of a normalization: with the component's square below the
/// squared length, the quotient stays within twice the unit scale.
proof fn lemma_unit_comp_bound(c: i64, n2: int, l: int)
    requires
        l >= 256,
        n2 >= 1,
        l * l <= n2 * (FX_ONE as int) < (l + 1) * (l + 1),
        n2 * (FX_ONE as int) <= 2 * (l * l),
        fx_mul_spec(c as int, c as int) <= n2,
        fx_mul_spec(c as int, c as int) >= 0,
    ensures
        -2 * (FX_ONE as int) <= fx_div_spec(c as int, l) <= 2 * (FX_ONE as int),
{
    let f = FX_ONE as int;
    let cc = c * c;
    assert(c * c >= 0) by (nonlinear_arith);
    vstd::arithmetic::div_mod::lemma_mod_bound(cc, f);
    vstd::arithmetic::div_mod::lemma_fundamental_div_mod(cc, f);
    assert(cc < (fx_mul_spec(c as int, c as int) + 1) * f) by {
        assert(f * (cc / f) + f >= cc + 1);
        assert((fx_mul_spec(c as int, c as int) + 1) * f == fx_mul_spec(c as int, c as int) * f
            + f) by (nonlinear_arith);
        assert(fx_mul_spec(c as int, c as int) * f >= (cc / f) * f) by (nonlinear_arith)
            requires
                fx_mul_spec(c as int, c as int) >= cc / f,
                f > 0,
        ;
        assert((cc / f) * f == f * (cc / f)) by (nonlinear_arith);
    }
    assert((n2 + 1) * f <= 2 * (n2 * f)) by (nonlinear_arith)
        requires
            n2 >= 1,
            f > 0,
    ;
    assert((fx_mul_spec(c as int, c as int) + 1) * f <= (n2 + 1) * f) by (nonlinear_arith)
        requires
            fx_mul_spec(c as int, c as int) <= n2,
            f > 0,
    ;
    assert(cc < 4 * (l * l));
    assert(-(2 * l) <= c <= 2 * l) by (nonlinear_arith)
        requires
            c * c < 4 * (l * l),
            l >= 1,
    ;
    lemma_tdiv_bound(c * f, l, (2 * l) * f);
    assert(((2 * l) * f) / l == 2 * f) by {
        assert((2 * l) * f == (2 * f) * l) by (nonlinear_arith);
        vstd::arithmetic::div_mod::lemma_div_by_multiple(2 * f, l);
    }
}

/// How far the squared length of a sampled "unit" vector may sit from one.
pub const UNIT_TOL: i64 = 64;

/// A vector whose length is one up to the sampling tolerance.
pub open spec fn nearly_unit(v: Vec3) -> bool {
    &&& bounded(v, FX_ONE + UNIT_TOL)
    &&& FX_ONE - UNIT_TOL <= norm2(v) <= FX_ONE + UNIT_TOL
}

/// Magnitude bounds on both vectors make a dot product computable and bound
/// its value.
pub proof fn lemma_dot_bounds(u: Vec3, v: Vec3, mu: int, mv: int)
    requires
        bounded(u, mu),
        bounded(v, mv),
        mu * mv <= 0x1000_0000_0000_0000_0000,
    ensures
        dot_fits(u, v),
        -3 * (mu * mv / (FX_ONE as int)) <= dot3(u, v) <= 3 * (mu * mv / (FX_ONE as int)),
{
    lemma_mul_mag(u.x as int, v.x as int, mu, mv);
    lemma_mul_mag(u.y as int, v.y as int, mu, mv);
    lemma_mul_mag(u.z as int, v.z as int, mu, mv);
    lemma_fx_mul_bound(u.x as int, v.x as int, mu, mv);
    lemma_fx_mul_bound(u.y as int, v.y as int, mu, mv);
    lemma_fx_mul_bound(u.z as int, v.z as int, mu, mv);
}

/// Negating a vector keeps its squared length.
pub proof fn lemma_norm2_neg(u: Vec3, nu: Vec3)
    requires
        nu.x == -(u.x as int),
        nu.y == -(u.y as int),
        nu.z == -(u.z as int),
    ensures
        norm2(nu) == norm2(u),
{
    lemma_fx_mul_neg(u.x as int, -(u.x as int));
    lemma_fx_mul_neg(-(u.x as int), u.x as int);
    lemma_fx_mul_neg(u.y as int, -(u.y as int));
    lemma_fx_mul_neg(-(u.y as int), u.y as int);
    lemma_fx_mul_neg(u.z as int, -(u.z as int));
    lemma_fx_mul_neg(-(u.z as int), u.z as int);
}

/// The normalized copy of a vector, as a vector again.
pub open spec fn unit_of(v: Vec3) -> Vec3 {
    Vec3 {
        x: fx_div_spec(v.x as int, len_fx(v)) as i64,
        y: fx_div_spec(v.y as int, len_fx(v)) as i64,
        z: fx_div_spec(v.z as int, len_fx(v)) as i64,
    }
}

/// A spec-level component triple, repacked as a vector.
pub open spec fn vec_of(p: (int, int, int)) -> Vec3 {
    Vec3 { x: p.0 as i64, y: p.1 as i64, z: p.2 as i64 }
}

/// The componentwise difference, as a vector.
pub open spec fn minus_of(a: Vec3, b: Vec3) -> Vec3 {
    Vec3 { x: (a.x - b.x) as i64, y: (a.y - b.y) as i64, z: (a.z - b.z) as i64 }
}

/// The componentwise sum, as a vector.
pub open spec fn plus_of(a: Vec3, b: Vec3) -> Vec3 {
    Vec3 { x: (a.x + b.x) as i64, y: (a.y + b.y) as i64, z: (a.z + b.z) as i64 }
}

/// The fixed-point scaling, as a vector.
pub open spec fn scaled_of(v: Vec3, t: int) -> Vec3 {
    Vec3 {
        x: fx_mul_spec(v.x as int, t) as i64,
        y: fx_mul_spec(v.y as int, t) as i64,
        z: fx_mul_spec(v.z as int, t) as i64,
    }
}

/// The fixed-point division, as a vector.
pub open spec fn divided_of(v: Vec3, t: int) -> Vec3 {
    Vec3 {
        x: fx_div_spec(v.x as int, t) as i64,
        y: fx_div_spec(v.y as int, t) as i64,
        z: fx_div_spec(v.z as int, t) as i64,
    }
}

/// The fixed-point cross product, as a vector.
pub open spec fn cross_of(u: Vec3, v: Vec3) -> Vec3 {
    Vec3 {
        x: (fx_mul_spec(u.y as int, v.z as int) - fx_mul_spec(u.z as int, v.y as int)) as i64,
        y: (fx_mul_spec(u.z as int, v.x as int) - fx_mul_spec(u.x as int, v.z as int)) as i64,
        z: (fx_mul_spec(u.x as int, v.y as int) - fx_mul_spec(u.y as int, v.x as int)) as i64,
    }
}

/// The cosine term of refraction: `min(dot(-uv, n), 1)` in fixed point.
pub open spec fn cos_theta_fx(uv: Vec3, n: Vec3) -> int {
    let d = -dot3(uv, n);
    if d < FX_ONE as int {
        d
    } else {
        FX_ONE as int
    }
}

/// The magnitude of an unbounded integer.
pub open spec fn abs_int(a: int) -> int {
    if a >= 0 {
        a
    } else {
        -a
    }
}

/// The component of the refracted ray perpendicular to the normal:
/// `ratio * (uv + cos_theta * n)`, componentwise in fixed point.
pub open spec fn refract_perp(uv: Vec3, n: Vec3, ratio: int) -> (int, int, int) {
    let c = cos_theta_fx(uv, n);
    (
        fx_mul_spec(ratio, uv.x + fx_mul_spec(c, n.x as int)),
        fx_mul_spec(ratio, uv.y + fx_mul_spec(c, n.y as int)),
        fx_mul_spec(ratio, uv.z + fx_mul_spec(c, n.z as int)),
    )
}

/// The fixed-point dot product of spec-level component triples.
pub open spec fn tup_dot3(u: (int, int, int), v: (int, int, int)) -> int {
    fx_mul_spec(u.0, v.0) + fx_mul_spec(u.1, v.1) + fx_mul_spec(u.2, v.2)
}

/// The fixed-point squared length of a spec-level component triple.
pub open spec fn tup_norm2(p: (int, int, int)) -> int {
    fx_mul_spec(p.0, p.0) + fx_mul_spec(p.1, p.1) + fx_mul_spec(p.2, p.2)
}

/// The refracted direction: perpendicular part plus
/// `-sqrt(|1 - |perp|^2|) * n`, componentwise in fixed point.
pub open spec fn refract3(uv: Vec3, n: Vec3, ratio: int) -> (int, int, int) {
    let p = refract_perp(uv, n, ratio);
    let k = fx_sqrt_spec(abs_int(FX_ONE - tup_norm2(p)));
    (p.0 - fx_mul_spec(k, n.x as int), p.1 - fx_mul_spec(k, n.y as int), p.2 - fx_mul_spec(
        k,
        n.z as int,
    ))
}

/// The mirror reflection `v - 2*dot(v, n)*n`, componentwise in fixed point.
pub open spec fn reflect3(v: Vec3, n: Vec3) -> (int, int, int) {
    let d = dot3(v, n);
    (v.x - fx_mul_spec(2 * d, n.x as int), v.y - fx_mul_spec(2 * d, n.y as int), v.z
        - fx_mul_spec(2 * d, n.z as int))
}

impl Vec3 {
    /// Mirror reflection about a unit-scale normal.
    pub fn reflect(v: Vec3, n: Vec3) -> (r: Vec3)
        requires
            bounded(v, 0x20_0000),
            bounded(n, 0x2_0000),
        ensures
            view3(r) == reflect3(v, n),
            bounded(r, 0x320_0000),
    {
        proof {
            lemma_dot_bounds(v, n, 0x20_0000, 0x2_0000);
        }
        let d = v.dot(n);
        let s = 2 * d;
        proof {
            lemma_mul_mag(s as int, n.x as int, 0x180_0000, 0x2_0000);
            lemma_mul_mag(s as int, n.y as int, 0x180_0000, 0x2_0000);
            lemma_mul_mag(s as int, n.z as int, 0x180_0000, 0x2_0000);
            lemma_fx_mul_bound(s as int, n.x as int, 0x180_0000, 0x2_0000);
            lemma_fx_mul_bound(s as int, n.y as int, 0x180_0000, 0x2_0000);
            lemma_fx_mul_bound(s as int, n.z as int, 0x180_0000, 0x2_0000);
        }
        Vec3 { x: v.x - fx_mul(s, n.x), y: v.y - fx_mul(s, n.y), z: v.z - fx_mul(s, n.z) }
    }

    /// Snell refraction of a unit-scale direction `uv` at a unit-scale
    /// normal, with the given ratio of refraction indices. The contract
    /// pins the rounded formula exactly; how close the result stays to unit
    /// length, and how nearly it opposes the normal, follow from the
    /// formula's rounding and are not separately stated.
    pub fn refract(uv: Vec3, n: Vec3, etai_over_etat: i64) -> (r: Vec3)
        requires
            bounded(uv, 0x2_0000),
            bounded(n, 0x2_0000),
            0 < etai_over_etat <= 4 * (FX_ONE as int),
        ensures
            view3(r) == refract3(uv, n, etai_over_etat as int),
            bounded(r, 0x268_0000),
    {
        proof {
            lemma_dot_bounds(uv, n, 0x2_0000, 0x2_0000);
        }
        let d = uv.dot(n);
        let negd = -d;
        let c = if negd < FX_ONE {
            negd
        } else {
            FX_ONE
        };
        proof {
            lemma_mul_mag(c as int, n.x as int, 0xC_0000, 0x2_0000);
            lemma_mul_mag(c as int, n.y as int, 0xC_0000, 0x2_0000);
            lemma_mul_mag(c as int, n.z as int, 0xC_0000, 0x2_0000);
            lemma_fx_mul_bound(c as int, n.x as int, 0xC_0000, 0x2_0000);
            lemma_fx_mul_bound(c as int, n.y as int, 0xC_0000, 0x2_0000);
            lemma_fx_mul_bound(c as int, n.z as int, 0xC_0000, 0x2_0000);
        }
        let ix = uv.x + fx_mul(c, n.x);
        let iy = uv.y + fx_mul(c, n.y);
        let iz = uv.z + fx_mul(c, n.z);
        proof {
            lemma_mul_mag(etai_over_etat as int, ix as int, 0x4_0000, 0x1A_0000);
            lemma_mul_mag(etai_over_etat as int, iy as int, 0x4_0000, 0x1A_0000);
            lemma_mul_mag(etai_over_etat as int, iz as int, 0x4_0000, 0x1A_0000);
            lemma_fx_mul_bound(etai_over_etat as int, ix as int, 0x4_0000, 0x1A_0000);
            lemma_fx_mul_bound(etai_over_etat as int, iy as int, 0x4_0000, 0x1A_0000);
            lemma_fx_mul_bound(etai_over_etat as int, iz as int, 0x4_0000, 0x1A_0000);
        }
        let perp = Vec3 {
            x: fx_mul(etai_over_etat, ix),
            y: fx_mul(etai_over_etat, iy),
            z: fx_mul(etai_over_etat, iz),
        };
        proof {
            lemma_dot_bounds(perp, perp, 0x80_0000, 0x80_0000);
            lemma_norm2_nonneg(perp);
        }
        let pl2 = perp.length_squared();
        let diff = FX_ONE - pl2;
        let a = if diff >= 0 {
            diff
        } else {
            -diff
        };
        let k = fx_sqrt(a);
        proof {
            lemma_sqrt_below(a * (FX_ONE as int), 0x100_0000);
            lemma_mul_mag(k as int, n.x as int, 0x100_0000, 0x2_0000);
            lemma_mul_mag(k as int, n.y as int, 0x100_0000, 0x2_0000);
            lemma_mul_mag(k as int, n.z as int, 0x100_0000, 0x2_0000);
            lemma_fx_mul_bound(k as int, n.x as int, 0x100_0000, 0x2_0000);
            lemma_fx_mul_bound(k as int, n.y as int, 0x100_0000, 0x2_0000);
            lemma_fx_mul_bound(k as int, n.z as int, 0x100_0000, 0x2_0000);
        }
        Vec3 { x: perp.x - fx_mul(k, n.x), y: perp.y - fx_mul(k, n.y), z: perp.z - fx_mul(k, n.z) }
    }

    /// Rejection-samples a direction of (approximately) unit length: draw in
    /// the cube, keep draws in a thick spherical shell, normalize, and accept
    /// when the result passes the unit-length check. A deterministic unit
    /// fallback keeps the iteration count finite.
    pub fn random_unit_vector() -> (r: Vec3)
        ensures
            nearly_unit(r),
    {
        let mut attempts: u32 = 0;
        while attempts < 64
            invariant
                attempts <= 64,
            decreases 64 - attempts,
        {
            let p = Vec3::random_range(-FX_ONE, FX_ONE);
            proof {
                lemma_dot_bounds(p, p, FX_ONE as int, FX_ONE as int);
            }
            let l2 = p.length_squared();
            if l2 >= FX_ONE / 4 {
                proof {
                    lemma_sqrt_at_least(norm2(p) * (FX_ONE as int), 0x8000);
                    lemma_tdiv_bound(p.x * (FX_ONE as int), len_fx(p), 0x1_0000_0000);
                    lemma_tdiv_bound(p.y * (FX_ONE as int), len_fx(p), 0x1_0000_0000);
                    lemma_tdiv_bound(p.z * (FX_ONE as int), len_fx(p), 0x1_0000_0000);
                    lemma_div_is_ordered_by_denominator(0x1_0000_0000, 0x8000, len_fx(p));
                }
                let u = p.unit_vector();
                proof {
                    lemma_dot_bounds(u, u, 0x2_0000, 0x2_0000);
                }
                let n2 = u.length_squared();
                if FX_ONE - UNIT_TOL <= n2 && n2 <= FX_ONE + UNIT_TOL && -(FX_ONE + UNIT_TOL)
                    <= u.x && u.x <= FX_ONE + UNIT_TOL && -(FX_ONE + UNIT_TOL) <= u.y && u.y
                    <= FX_ONE + UNIT_TOL && -(FX_ONE + UNIT_TOL) <= u.z && u.z <= FX_ONE
                    + UNIT_TOL {
                    return u;
                }
            }
            attempts = attempts + 1;
        }
        proof {
            lemma_tdiv_exact(FX_ONE as int, FX_ONE as int);
        }
        Vec3 { x: FX_ONE, y: 0, z: 0 }
    }

    /// A unit-length sample lying on the same side as `normal`.
    pub fn random_on_hemisphere(normal: Vec3) -> (r: Vec3)
        requires
            bounded(normal, 2 * (FX_ONE as int)),
        ensures
            nearly_unit(r),
            dot3(r, normal) >= 0,
    {
        let on_unit_sphere = Vec3::random_unit_vector();
        proof {
            lemma_dot_bounds(on_unit_sphere, normal, 0x2_0000, 0x2_0000);
        }
        let d = dot(on_unit_sphere, normal);
        if d > 0 {
            on_unit_sphere
        } else {
            let flipped = on_unit_sphere.neg();
            proof {
                lemma_dot3_neg(on_unit_sphere, flipped, normal);
                lemma_norm2_neg(on_unit_sphere, flipped);
            }
            flipped
        }
    }

    /// Rejection-samples a point inside the unit disk of the xy-plane, for
    /// defocus (lens) sampling. The origin is the deterministic fallback.
    pub fn random_in_unit_disk() -> (r: Vec3)
        ensures
            r.z == 0,
            bounded(r, FX_ONE as int),
            norm2(r) < FX_ONE,
    {
        let mut attempts: u32 = 0;
        while attempts < 64
            invariant
                attempts <= 64,
            decreases 64 - attempts,
        {
            let p = Vec3 {
                x: random_double_range(-FX_ONE, FX_ONE),
                y: random_double_range(-FX_ONE, FX_ONE),
                z: 0,
            };
            proof {
                lemma_dot_bounds(p, p, FX_ONE as int, FX_ONE as int);
            }
            let l2 = p.length_squared();
            if l2 < FX_ONE {
                return p;
            }
            attempts = attempts + 1;
        }
        Vec3 { x: 0, y: 0, z: 0 }
    }
}

/// Exact integer triples: the unrounded counterparts of the fixed-point
/// vectors, used to state the optics laws free of truncation. An operation
/// that multiplies carries its result at the raised product scale.
pub open spec fn idot(u: (int, int, int), v: (int, int, int)) -> int {
    u.0 * v.0 + u.1 * v.1 + u.2 * v.2
}

/// Scales an exact triple.
pub open spec fn iscale(k: int, v: (int, int, int)) -> (int, int, int) {
    (k * v.0, k * v.1, k * v.2)
}

/// Componentwise sum of exact triples.
pub open spec fn iadd(u: (int, int, int), v: (int, int, int)) -> (int, int, int) {
    (u.0 + v.0, u.1 + v.1, u.2 + v.2)
}

/// Componentwise difference of exact triples.
pub open spec fn isub(u: (int, int, int), v: (int, int, int)) -> (int, int, int) {
    (u.0 - v.0, u.1 - v.1, u.2 - v.2)
}

/// Componentwise negation of an exact triple.
pub open spec fn ineg(v: (int, int, int)) -> (int, int, int) {
    (-v.0, -v.1, -v.2)
}

/// The exact mirror reflection `(n.n)v - 2(v.n)n`, carried at the scale of
/// `n.n` so that no division is needed.
pub open spec fn ireflect(v: (int, int, int), n: (int, int, int)) -> (int, int, int) {
    isub(iscale(idot(n, n), v), iscale(2 * idot(v, n), n))
}

proof fn lemma_sq_expand_sub(k: int, m: int, a: int, d: int)
    ensures
        (k * a - m * d) * (k * a - m * d) == k * k * (a * a) - 2 * ((k * m) * (a * d)) + m * m * (
        d * d),
{
    let p = k * a;
    let q = m * d;
    assert((p - q) * (p - q) == p * p - 2 * (p * q) + q * q) by (nonlinear_arith);
    assert(p * p == k * k * (a * a)) by (nonlinear_arith)
        requires
            p == k * a,
    ;
    assert(p * q == (k * m) * (a * d)) by (nonlinear_arith)
        requires
            p == k * a,
            q == m * d,
    ;
    assert(q * q == m * m * (d * d)) by (nonlinear_arith)
        requires
            q == m * d,
    ;
}

proof fn lemma_sq_expand_add(k: int, m: int, a: int, d: int)
    ensures
        (k * a + m * d) * (k * a + m * d) == k * k * (a * a) + 2 * ((k * m) * (a * d)) + m * m * (
        d * d),
{
    let p = k * a;
    let q = m * d;
    assert((p + q) * (p + q) == p * p + 2 * (p * q) + q * q) by (nonlinear_arith);
    assert(p * p == k * k * (a * a)) by (nonlinear_arith)
        requires
            p == k * a,
    ;
    assert(p * q == (k * m) * (a * d)) by (nonlinear_arith)
        requires
            p == k * a,
            q == m * d,
    ;
    assert(q * q == m * m * (d * d)) by (nonlinear_arith)
        requires
            q == m * d,
    ;
}

proof fn lemma_mul_distrib3(x: int, p: int, q: int, r: int)
    by (nonlinear_arith)
    ensures
        x * (p + q + r) == x * p + x * q + x * r,
{
}

proof fn lemma_prod_sub_distrib(k: int, m: int, a: int, d: int)
    ensures
        (k * a - m * d) * d == k * (a * d) - m * (d * d),
{
    let p = k * a;
    let q = m * d;
    assert((p - q) * d == p * d - q * d) by (nonlinear_arith);
    assert(p * d == k * (a * d)) by (nonlinear_arith)
        requires
            p == k * a,
    ;
    assert(q * d == m * (d * d)) by (nonlinear_arith)
        requires
            q == m * d,
    ;
}

proof fn lemma_unreflect_comp(k: int, s: int, a: int, d: int)
    ensures
        k * (k * a - (2 * s) * d) - (2 * (k * s)) * (-d) == (k * k) * a,
{
    let r = k * a - (2 * s) * d;
    assert(k * r == k * (k * a) - k * ((2 * s) * d)) by (nonlinear_arith)
        requires
            r == k * a - (2 * s) * d,
    ;
    assert(k * (k * a) == (k * k) * a) by (nonlinear_arith);
    assert(k * ((2 * s) * d) == (2 * (k * s)) * d) by (nonlinear_arith);
    assert((2 * (k * s)) * (-d) == -((2 * (k * s)) * d)) by (nonlinear_arith);
}

/// Expands the squared length of a scaled difference bilinearly.
proof fn lemma_idot_sub_sq(k: int, m: int, u: (int, int, int), n: (int, int, int))
    ensures
        idot(isub(iscale(k, u), iscale(m, n)), isub(iscale(k, u), iscale(m, n))) == k * k * idot(
            u,
            u,
        ) - 2 * ((k * m) * idot(u, n)) + m * m * idot(n, n),
{
    lemma_sq_expand_sub(k, m, u.0, n.0);
    lemma_sq_expand_sub(k, m, u.1, n.1);
    lemma_sq_expand_sub(k, m, u.2, n.2);
    lemma_mul_distrib3(k * k, u.0 * u.0, u.1 * u.1, u.2 * u.2);
    lemma_mul_distrib3(k * m, u.0 * n.0, u.1 * n.1, u.2 * n.2);
    lemma_mul_distrib3(m * m, n.0 * n.0, n.1 * n.1, n.2 * n.2);
}

/// Expands the squared length of a scaled sum bilinearly.
proof fn lemma_idot_add_sq(k: int, m: int, u: (int, int, int), n: (int, int, int))
    ensures
        idot(iadd(iscale(k, u), iscale(m, n)), iadd(iscale(k, u), iscale(m, n))) == k * k * idot(
            u,
            u,
        ) + 2 * ((k * m) * idot(u, n)) + m * m * idot(n, n),
{
    lemma_sq_expand_add(k, m, u.0, n.0);
    lemma_sq_expand_add(k, m, u.1, n.1);
    lemma_sq_expand_add(k, m, u.2, n.2);
    lemma_mul_distrib3(k * m, u.0 * n.0, u.1 * n.1, u.2 * n.2);
    lemma_mul_distrib3(k * k, u.0 * u.0, u.1 * u.1, u.2 * u.2);
    lemma_mul_distrib3(m * m, n.0 * n.0, n.1 * n.1, n.2 * n.2);
}

/// A uniform scale factors out of a squared length quadratically.
proof fn lemma_idot_scale_sq(p: int, w: (int, int, int))
    ensures
        idot(iscale(p, w), iscale(p, w)) == p * p * idot(w, w),
{
    assert((p * w.0) * (p * w.0) == p * p * (w.0 * w.0)) by (nonlinear_arith);
    assert((p * w.1) * (p * w.1) == p * p * (w.1 * w.1)) by (nonlinear_arith);
    assert((p * w.2) * (p * w.2) == p * p * (w.2 * w.2)) by (nonlinear_arith);
    lemma_mul_distrib3(p * p, w.0 * w.0, w.1 * w.1, w.2 * w.2);
}

/// The reflection's dot product with the normal flips sign.
proof fn lemma_ireflect_dot_n(v: (int, int, int), n: (int, int, int))
    ensures
        idot(ireflect(v, n), n) == -(idot(n, n) * idot(v, n)),
{
    let kk = idot(n, n);
    let s = idot(v, n);
    lemma_prod_sub_distrib(kk, 2 * s, v.0, n.0);
    lemma_prod_sub_distrib(kk, 2 * s, v.1, n.1);
    lemma_prod_sub_distrib(kk, 2 * s, v.2, n.2);
    lemma_mul_distrib3(kk, v.0 * n.0, v.1 * n.1, v.2 * n.2);
    lemma_mul_distrib3(2 * s, n.0 * n.0, n.1 * n.1, n.2 * n.2);
    assert(kk * s - (2 * s) * kk == -(kk * s)) by (nonlinear_arith);
}

/// **Reflection preserves magnitude.** The exact mirror reflection of `v`
/// about `n` has squared length `(n.n)^2 * (v.v)`: after undoing the carried
/// scale `n.n`, the reflected direction is exactly as long as `v`.
pub proof fn lemma_reflect_preserves_length(v: (int, int, int), n: (int, int, int))
    ensures
        idot(ireflect(v, n), ireflect(v, n)) == idot(n, n) * idot(n, n) * idot(v, v),
{
    let kk = idot(n, n);
    let s = idot(v, n);
    lemma_idot_sub_sq(kk, 2 * s, v, n);
    assert(2 * ((kk * (2 * s)) * s) == (2 * s) * (2 * s) * kk) by (nonlinear_arith);
}

/// **Reflecting twice returns the original direction.** Reflecting the
/// reflection through the negated normal gives back `v` itself, scaled by
/// the carried factor `(n.n)^2`; in particular its length is that of `v`.
pub proof fn lemma_reflect_involution(v: (int, int, int), n: (int, int, int))
    ensures
        ireflect(ireflect(v, n), ineg(n)) == iscale(idot(n, n) * idot(n, n), v),
{
    let kk = idot(n, n);
    let s = idot(v, n);
    let r = ireflect(v, n);
    let m = ineg(n);
    lemma_ireflect_dot_n(v, n);
    assert((-n.0) * (-n.0) == n.0 * n.0) by (nonlinear_arith);
    assert((-n.1) * (-n.1) == n.1 * n.1) by (nonlinear_arith);
    assert((-n.2) * (-n.2) == n.2 * n.2) by (nonlinear_arith);
    assert(idot(m, m) == kk);
    assert(r.0 * (-n.0) == -(r.0 * n.0)) by (nonlinear_arith);
    assert(r.1 * (-n.1) == -(r.1 * n.1)) by (nonlinear_arith);
    assert(r.2 * (-n.2) == -(r.2 * n.2)) by (nonlinear_arith);
    assert(idot(r, m) == kk * s);
    lemma_unreflect_comp(kk, s, v.0, n.0);
    lemma_unreflect_comp(kk, s, v.1, n.1);
    lemma_unreflect_comp(kk, s, v.2, n.2);
    assert((2 * (kk * s)) * (-n.0) == 2 * ((kk * s) * (-n.0))) by (nonlinear_arith);
    assert((2 * (kk * s)) * (-n.1) == 2 * ((kk * s) * (-n.1))) by (nonlinear_arith);
    assert((2 * (kk * s)) * (-n.2) == 2 * ((kk * s) * (-n.2))) by (nonlinear_arith);
}

/// **Snell's law.** For directions at a common squared scale `s2`
/// (`uv.uv == n.n == s2`) and incidence cosine `c == -uv.n` (at scale `s2`),
/// the perpendicular part of the exact refraction, `p * (s2*uv + c*n)`, has
/// squared length `p^2 * s2 * (s2^2 - c^2)`. Since `s2^2 - c^2` is
/// `sin^2(theta_1)` at scale `s2^2`, dividing both sides by the scales gives
/// `sin(theta_2) == (p/q) * sin(theta_1)` for a refraction ratio `p/q`: the
/// angle re-derived on the far side obeys `n1*sin(theta_1) ==
/// n2*sin(theta_2)`.
pub proof fn lemma_refract_snell(uv: (int, int, int), n: (int, int, int), p: int, s2: int, c: int)
    requires
        idot(uv, uv) == s2,
        idot(n, n) == s2,
        c == -idot(uv, n),
    ensures
        idot(
            iscale(p, iadd(iscale(s2, uv), iscale(c, n))),
            iscale(p, iadd(iscale(s2, uv), iscale(c, n))),
        ) == p * p * s2 * (s2 * s2 - c * c),
{
    let w = iadd(iscale(s2, uv), iscale(c, n));
    lemma_idot_add_sq(s2, c, uv, n);
    lemma_idot_scale_sq(p, w);
    assert(2 * ((s2 * c) * (-c)) == -(2 * (s2 * (c * c)))) by (nonlinear_arith);
    assert(c * c * s2 == s2 * (c * c)) by (nonlinear_arith);
    let cc2 = c * c;
    assert(idot(w, w) == s2 * s2 * s2 - s2 * cc2);
    assert(s2 * s2 * s2 - s2 * cc2 == s2 * (s2 * s2 - cc2)) by (nonlinear_arith);
    assert(p * p * (s2 * (s2 * s2 - cc2)) == p * p * s2 * (s2 * s2 - cc2)) by (nonlinear_arith);
}

/// The fixed-point dot product as a free function.
pub fn dot(u: Vec3, v: Vec3) -> (r: i64)
    requires
        dot_fits(u, v),
    ensures
        r == dot3(u, v),
{
    u.dot(v)
}

} // verus!
