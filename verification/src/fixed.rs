//! Scalar fixed-point arithmetic.
//!
//! A fixed-point number is a real number scaled by `FX_ONE` and stored in an
//! `i64`; one unit is `FX_ONE`, and the fractional resolution is `1 / FX_ONE`.
//! Multiplication, division and square root round toward zero, and each
//! operation's contract states its result exactly in terms of that rounding.

use vstd::arithmetic::div_mod::lemma_div_is_ordered;
use vstd::prelude::*;

verus! {

/// The scale factor: the fixed-point representation of 1.0.
pub const FX_ONE: i64 = 65536;

/// Truncating (round-toward-zero) division, the rounding every fixed-point
/// operation here uses. Spec-mode `/` is Euclidean, so truncation is spelled
/// out through the sign split.
pub open spec fn tdiv(a: int, b: int) -> int
    recommends
        b > 0,
{
    if a >= 0 {
        a / b
    } else {
        -((-a) / b)
    }
}

/// The fixed-point product of `a` and `b`: the integer product, brought back
/// to fixed-point scale by a truncating division.
pub open spec fn fx_mul_spec(a: int, b: int) -> int {
    tdiv(a * b, FX_ONE as int)
}

/// The fixed-point quotient of `a` by `b`.
pub open spec fn fx_div_spec(a: int, b: int) -> int
    recommends
        b > 0,
{
    tdiv(a * FX_ONE, b)
}

/// The integer square root: the largest `r` with `r * r <= n`.
pub open spec fn sqrt_nat(n: int) -> int
    recommends
        n >= 0,
    decreases n,
{
    if n <= 0 {
        0
    } else {
        let r = sqrt_nat(n - 1);
        if (r + 1) * (r + 1) <= n {
            r + 1
        } else {
            r
        }
    }
}

/// The fixed-point square root of `x`: `sqrt(x / FX_ONE) * FX_ONE` rounded
/// down, which is the integer square root of `x * FX_ONE`.
pub open spec fn fx_sqrt_spec(x: int) -> int
    recommends
        x >= 0,
{
    sqrt_nat(x * FX_ONE)
}

/// The integer products whose truncated quotient by `FX_ONE` fits in an `i64`:
/// the precondition of fixed-point multiplication.
pub open spec fn fx_fits(p: int) -> bool {
    -0x7fff_ffff_ffff_ffff * 0x10000 <= p <= 0x7fff_ffff_ffff_ffff * 0x10000
}

/// A tighter product range (within `2^76`) under which a three-term dot
/// product accumulates without overflow.
pub open spec fn dot_term_fits(p: int) -> bool {
    -0x1000_0000_0000_0000_0000 <= p <= 0x1000_0000_0000_0000_0000
}

/// `sqrt_nat(n)` is the (nonnegative) floor of the real square root.
pub proof fn lemma_sqrt_nat(n: int)
    requires
        n >= 0,
    ensures
        sqrt_nat(n) >= 0,
        sqrt_nat(n) * sqrt_nat(n) <= n,
        n < (sqrt_nat(n) + 1) * (sqrt_nat(n) + 1),
    decreases n,
{
    if n == 0 {
    } else {
        lemma_sqrt_nat(n - 1);
        let r = sqrt_nat(n - 1);
        if (r + 1) * (r + 1) <= n {
            assert(n <= (r + 1) * (r + 1)) by {
                assert(n - 1 < (r + 1) * (r + 1));
            }
            assert((r + 1 + 1) * (r + 1 + 1) > (r + 1) * (r + 1)) by (nonlinear_arith)
                requires
                    r >= 0,
            ;
        }
    }
}

/// Any `r` in the floor-square-root position for `n` is `sqrt_nat(n)`.
pub proof fn lemma_sqrt_unique(n: int, r: int)
    requires
        n >= 0,
        r >= 0,
        r * r <= n,
        n < (r + 1) * (r + 1),
    ensures
        r == sqrt_nat(n),
{
    lemma_sqrt_nat(n);
    let s = sqrt_nat(n);
    if r < s {
        assert((r + 1) * (r + 1) <= s * s) by (nonlinear_arith)
            requires
                0 <= r,
                r + 1 <= s,
        ;
    }
    if s < r {
        assert((s + 1) * (s + 1) <= r * r) by (nonlinear_arith)
            requires
                0 <= s,
                s + 1 <= r,
        ;
    }
}

/// The square root of a perfect square is exact.
pub proof fn lemma_sqrt_square(r: int)
    requires
        r >= 0,
    ensures
        sqrt_nat(r * r) == r,
{
    assert(r * r >= 0) by (nonlinear_arith)
        requires
            r >= 0,
    ;
    assert(r * r < (r + 1) * (r + 1)) by (nonlinear_arith)
        requires
            r >= 0,
    ;
    lemma_sqrt_unique(r * r, r);
}

/// A value whose square stays below `n` is below the square root of `n`.
pub proof fn lemma_sqrt_at_least(n: int, t: int)
    requires
        n >= 0,
        t >= 0,
        t * t <= n,
    ensures
        sqrt_nat(n) >= t,
{
    lemma_sqrt_nat(n);
    let s = sqrt_nat(n);
    if s < t {
        assert((s + 1) * (s + 1) <= t * t) by (nonlinear_arith)
            requires
                0 <= s,
                s + 1 <= t,
        ;
    }
}

/// A value whose square exceeds `n` is above the square root of `n`.
pub proof fn lemma_sqrt_below(n: int, t: int)
    requires
        n >= 0,
        t >= 0,
        n < t * t,
    ensures
        sqrt_nat(n) < t,
{
    lemma_sqrt_nat(n);
    let s = sqrt_nat(n);
    if s >= t {
        assert(t * t <= s * s) by (nonlinear_arith)
            requires
                0 <= t <= s,
        ;
    }
}

/// Magnitude bounds multiply through an integer product.
pub proof fn lemma_mul_mag(a: int, b: int, ma: int, mb: int)
    by (nonlinear_arith)
    requires
        -ma <= a <= ma,
        -mb <= b <= mb,
    ensures
        -(ma * mb) <= a * b <= ma * mb,
{
}

/// Fixed-point multiplication is odd in each argument.
pub proof fn lemma_fx_mul_neg(a: int, b: int)
    ensures
        fx_mul_spec(-a, b) == -fx_mul_spec(a, b),
        fx_mul_spec(b, a) == fx_mul_spec(a, b),
{
    assert((-a) * b == -(a * b)) by (nonlinear_arith);
    assert(b * a == a * b) by (nonlinear_arith);
}

/// Componentwise magnitude bounds carry through fixed-point multiplication.
pub proof fn lemma_fx_mul_bound(a: int, b: int, ma: int, mb: int)
    requires
        -ma <= a <= ma,
        -mb <= b <= mb,
    ensures
        -(ma * mb / (FX_ONE as int)) <= fx_mul_spec(a, b) <= ma * mb / (FX_ONE as int),
        a * b >= 0 ==> fx_mul_spec(a, b) >= 0,
        a * b <= 0 ==> fx_mul_spec(a, b) <= 0,
{
    assert(-(ma * mb) <= a * b <= ma * mb) by (nonlinear_arith)
        requires
            -ma <= a <= ma,
            -mb <= b <= mb,
    ;
    lemma_tdiv_bound(a * b, FX_ONE as int, ma * mb);
    lemma_tdiv_sign(a * b, FX_ONE as int);
}

/// Truncating division never grows magnitude past `m / b` when `|a| <= m`.
pub proof fn lemma_tdiv_bound(a: int, b: int, m: int)
    requires
        b > 0,
        0 <= m,
        -m <= a <= m,
    ensures
        -(m / b) <= tdiv(a, b) <= m / b,
{
    if a >= 0 {
        lemma_div_is_ordered(0, a, b);
        lemma_div_is_ordered(a, m, b);
    } else {
        lemma_div_is_ordered(0, -a, b);
        lemma_div_is_ordered(-a, m, b);
    }
}

/// Truncating division is monotone in the dividend.
pub proof fn lemma_tdiv_mono(x: int, y: int, b: int)
    requires
        b > 0,
        x <= y,
    ensures
        tdiv(x, b) <= tdiv(y, b),
{
    if x >= 0 {
        lemma_div_is_ordered(x, y, b);
    } else if y < 0 {
        lemma_div_is_ordered(-y, -x, b);
    } else {
        lemma_div_is_ordered(0, -x, b);
        lemma_div_is_ordered(0, y, b);
    }
}

/// Division is exact on whole multiples of the divisor.
pub proof fn lemma_tdiv_exact(k: int, b: int)
    requires
        b > 0,
    ensures
        tdiv(k * b, b) == k,
{
    if k >= 0 {
        vstd::arithmetic::div_mod::lemma_div_by_multiple(k, b);
    } else {
        vstd::arithmetic::div_mod::lemma_div_by_multiple(-k, b);
        assert(-(k * b) == (-k) * b) by (nonlinear_arith);
    }
}

/// Truncating division by a positive divisor is monotone on nonnegative input
/// and keeps sign.
pub proof fn lemma_tdiv_sign(a: int, b: int)
    requires
        b > 0,
    ensures
        a >= 0 ==> tdiv(a, b) >= 0,
        a <= 0 ==> tdiv(a, b) <= 0,
        a >= 0 ==> tdiv(a, b) <= a,
        tdiv(-a, b) == -tdiv(a, b),
{
    if a >= 0 {
        lemma_div_is_ordered(0, a, b);
        vstd::arithmetic::div_mod::lemma_div_nonincreasing(a, b);
    } else {
        lemma_div_is_ordered(0, -a, b);
    }
}

/// Truncating division of an `i128` by a positive divisor.
pub fn tdiv_i128(a: i128, b: i128) -> (q: i128)
    requires
        b > 0,
        a > i128::MIN,
    ensures
        q == tdiv(a as int, b as int),
{
    if a >= 0 {
        proof {
            lemma_tdiv_bound(a as int, b as int, a as int);
        }
        ((a as u128) / (b as u128)) as i128
    } else {
        proof {
            lemma_tdiv_bound(a as int, b as int, -(a as int));
        }
        -((((-a) as u128) / (b as u128)) as i128)
    }
}

/// Fixed-point multiplication: exact integer product, truncated back to scale.
pub fn fx_mul(a: i64, b: i64) -> (r: i64)
    requires
        fx_fits(a * b),
    ensures
        r == fx_mul_spec(a as int, b as int),
{
    proof {
        lemma_tdiv_bound(a * b, FX_ONE as int, 0x7fff_ffff_ffff_ffff * (FX_ONE as int));
        lemma_tdiv_exact(0x7fff_ffff_ffff_ffff, FX_ONE as int);
    }
    let p: i128 = (a as i128) * (b as i128);
    tdiv_i128(p, FX_ONE as i128) as i64
}

/// Fixed-point division: the dividend is raised to the product scale first,
/// then truncated by the divisor.
pub fn fx_div(a: i64, b: i64) -> (r: i64)
    requires
        b > 0,
        -0x7fff_ffff_ffff_ffff <= fx_div_spec(a as int, b as int) <= 0x7fff_ffff_ffff_ffff,
    ensures
        r == fx_div_spec(a as int, b as int),
{
    let p: i128 = (a as i128) * (FX_ONE as i128);
    tdiv_i128(p, b as i128) as i64
}

/// The integer square root of a `u128`, by bisection.
fn isqrt_u128(n: u128) -> (r: u128)
    ensures
        r * r <= n < (r + 1) * (r + 1),
{
    let mut lo: u128 = 0;
    let mut hi: u128 = 1u128 << 64;
    proof {
        assert((1u128 << 64) == 0x1_0000_0000_0000_0000) by (bit_vector);
        assert(n < (0x1_0000_0000_0000_0000 as int) * 0x1_0000_0000_0000_0000);
    }
    while hi - lo > 1
        invariant
            0 <= lo < hi <= 0x1_0000_0000_0000_0000,
            lo * lo <= n,
            n < hi * hi,
        decreases hi - lo,
    {
        let mid: u128 = lo + (hi - lo) / 2;
        assert(lo < mid < hi);
        assert(mid * mid <= (0xffff_ffff_ffff_ffff as int) * 0xffff_ffff_ffff_ffff)
            by (nonlinear_arith)
            requires
                0 <= mid <= 0xffff_ffff_ffff_ffff,
        ;
        if mid * mid <= n {
            lo = mid;
        } else {
            hi = mid;
        }
    }
    lo
}

/// Fixed-point square root of a nonnegative value.
pub fn fx_sqrt(x: i64) -> (r: i64)
    requires
        x >= 0,
    ensures
        r == fx_sqrt_spec(x as int),
        r >= 0,
{
    proof {
        assert((FX_ONE as u128) == 65536);
        assert((x as u128) * 65536 < 0x1_0000_0000_0000_0000_0000_0000) by (nonlinear_arith)
            requires
                0 <= (x as u128) < 0x8000_0000_0000_0000,
        ;
    }
    let n: u128 = (x as u128) * (FX_ONE as u128);
    let r = isqrt_u128(n);
    proof {
        assert(n == (x as int) * 65536);
        assert(n < 0x1_0000_0000_0000_0000_0000_0000);
        lemma_sqrt_unique(n as int, r as int);
        assert(r < 0x1_0000_0000_0000) by (nonlinear_arith)
            requires
                0 <= r,
                (r as int) * (r as int) <= (n as int),
                (n as int) < 0x1_0000_0000_0000_0000_0000_0000,
        ;
    }
    r as i64
}

} // verus!
