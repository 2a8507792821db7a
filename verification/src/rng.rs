//! Uniform fixed-point random draws.
//!
//! The renderer needs a stream of uniform samples in `[0, 1)`; they come from
//! the process-wide thread-local generator, so each worker thread owns its own
//! stream and no synchronization is needed.

use crate::fixed::{fx_mul, fx_mul_spec, lemma_fx_mul_bound, FX_ONE};
use vstd::arithmetic::div_mod::lemma_multiply_divide_lt;
use vstd::prelude::*;

verus! {

/// Relies on `rand::random` with the `StandardUniform` distribution for
/// `u64`: one word from the thread-local generator. Nothing is promised of
/// the value; callers state what holds of every outcome.
#[verifier::external_body]
fn random_u64() -> u64 {
    rand::random::<u64>()
}

/// A uniform fixed-point draw from `[0, 1)`: the low fractional bits of one
/// generator word.
pub fn random_double() -> (r: i64)
    ensures
        0 <= r < FX_ONE,
{
    (random_u64() % (FX_ONE as u64)) as i64
}

/// A uniform fixed-point draw from `[min, max)` (or exactly `min` when the
/// range is empty).
pub fn random_double_range(min: i64, max: i64) -> (r: i64)
    requires
        min <= max,
        max - min <= 0x7fff_ffff_ffff,
        -0x3fff_ffff_ffff_ffff <= min,
        max <= 0x3fff_ffff_ffff_ffff,
    ensures
        min <= r <= max,
        min < max ==> r < max,
{
    let u = random_double();
    let span = max - min;
    proof {
        assert(0 <= span * u <= span * (FX_ONE - 1)) by (nonlinear_arith)
            requires
                0 <= span,
                0 <= u <= FX_ONE - 1,
        ;
        assert(span * (FX_ONE - 1) <= 0x7fff_ffff_ffff * 0x10000) by (nonlinear_arith)
            requires
                0 <= span <= 0x7fff_ffff_ffff,
        ;
    }
    let off = fx_mul(span, u);
    proof {
        lemma_fx_mul_bound(span as int, u as int, span as int, FX_ONE - 1);
        if span > 0 {
            assert(span * u < (FX_ONE as int) * span) by (nonlinear_arith)
                requires
                    0 <= u < (FX_ONE as int),
                    span > 0,
            ;
            lemma_multiply_divide_lt(span * u, FX_ONE as int, span as int);
        }
    }
    min + off
}

} // verus!
