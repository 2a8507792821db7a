//! Color handling and plain-text pixel output.
//!
//! A color is a `Vec3` with linear components in `[0, 1]` fixed point. The
//! encoder gamma-corrects with a square root, clamps to `[0, 0.999]`, scales
//! by 256 and truncates to a byte, then appends `"R G B\n"` in decimal.

use crate::fixed::{fx_sqrt, fx_sqrt_spec, tdiv, FX_ONE};
use crate::vec3::Vec3;
use vstd::prelude::*;

verus! {

/// Colors share the vector representation.
pub type Color = Vec3;

/// A linear color: every channel within `[0, 1]` in fixed point.
pub open spec fn color_wf(c: Vec3) -> bool {
    &&& 0 <= c.x <= FX_ONE
    &&& 0 <= c.y <= FX_ONE
    &&& 0 <= c.z <= FX_ONE
}

/// The largest clamped channel value: 0.999 in fixed point, rounded down.
pub const CLAMP_MAX: i64 = 65470;

/// Gamma correction: the square root of the linear value, with negative
/// input mapped to zero.
pub open spec fn linear_to_gamma_spec(x: int) -> int {
    if x < 0 {
        0
    } else {
        fx_sqrt_spec(x)
    }
}

/// Clamp to `[0, 0.999]`, scale by 256, truncate: the byte of one channel.
pub open spec fn quantize_spec(x: int) -> int {
    let c = if x < 0 {
        0
    } else if x > CLAMP_MAX {
        CLAMP_MAX as int
    } else {
        x
    };
    tdiv(c * 256, FX_ONE as int)
}

/// The output byte of a linear channel value: gamma, clamp, scale.
pub open spec fn channel_byte(x: int) -> int {
    quantize_spec(linear_to_gamma_spec(x))
}

/// The decimal digits of a nonnegative number, as ASCII bytes.
pub open spec fn dec_bytes(n: int) -> Seq<u8>
    recommends
        n >= 0,
    decreases n,
{
    if n < 10 {
        seq![(48 + n) as u8]
    } else {
        dec_bytes(n / 10) + seq![(48 + n % 10) as u8]
    }
}

/// One pixel's output line: `"R G B\n"` with each channel in decimal.
pub open spec fn color_line(c: Vec3) -> Seq<u8> {
    dec_bytes(channel_byte(c.x as int)) + seq![32u8] + dec_bytes(channel_byte(c.y as int))
        + seq![32u8] + dec_bytes(channel_byte(c.z as int)) + seq![10u8]
}

/// The portable-pixmap header: `"P3\n<width> <height>\n255\n"`.
pub open spec fn ppm_header_spec(width: int, height: int) -> Seq<u8> {
    seq![80u8, 51u8, 10u8] + dec_bytes(width) + seq![32u8] + dec_bytes(height) + seq![
        10u8,
        50u8,
        53u8,
        53u8,
        10u8,
    ]
}

/// The concatenated output lines of a pixel sequence, in order.
pub open spec fn pixel_lines(pix: Seq<Vec3>) -> Seq<u8>
    decreases pix.len(),
{
    if pix.len() == 0 {
        Seq::empty()
    } else {
        color_line(pix[0]) + pixel_lines(pix.skip(1))
    }
}

/// No pixels, no lines.
pub proof fn lemma_pixel_lines_empty()
    ensures
        pixel_lines(Seq::<Vec3>::empty()) == Seq::<u8>::empty(),
{
    assert(pixel_lines(Seq::<Vec3>::empty()) =~= Seq::<u8>::empty());
}

/// Appending a pixel appends its line.
pub proof fn lemma_pixel_lines_push(pix: Seq<Vec3>, c: Vec3)
    ensures
        pixel_lines(pix.push(c)) == pixel_lines(pix) + color_line(c),
    decreases pix.len(),
{
    let p2 = pix.push(c);
    if pix.len() == 0 {
        assert(p2[0] == c);
        assert(p2.skip(1) =~= Seq::<Vec3>::empty());
        assert(pixel_lines(p2) == color_line(c) + pixel_lines(Seq::<Vec3>::empty()));
        assert(color_line(c) + Seq::<u8>::empty() =~= color_line(c));
        assert(pixel_lines(pix) + color_line(c) =~= color_line(c));
    } else {
        assert(p2[0] == pix[0]);
        assert(p2.skip(1) =~= pix.skip(1).push(c));
        lemma_pixel_lines_push(pix.skip(1), c);
        assert(pixel_lines(p2) == color_line(pix[0]) + (pixel_lines(pix.skip(1)) + color_line(c)));
        assert(color_line(pix[0]) + (pixel_lines(pix.skip(1)) + color_line(c)) =~= (color_line(
        pix[0]) + pixel_lines(pix.skip(1))) + color_line(c));
    }
}

/// Gamma correction of one linear channel.
pub fn linear_to_gamma(linear_component: i64) -> (r: i64)
    ensures
        r == linear_to_gamma_spec(linear_component as int),
        r >= 0,
{
    if linear_component < 0 {
        return 0;
    }
    fx_sqrt(linear_component)
}

/// The output byte of one already-gamma-corrected channel value.
fn quantize(x: i64) -> (r: u8)
    requires
        x >= 0,
    ensures
        r == quantize_spec(x as int),
{
    let c: i64 = if x > CLAMP_MAX {
        CLAMP_MAX
    } else {
        x
    };
    ((c as u64) * 256 / (FX_ONE as u64)) as u8
}

/// Appends the decimal digits of `n`.
fn push_decimal(out: &mut Vec<u8>, n: u32)
    ensures
        final(out)@ == old(out)@ + dec_bytes(n as int),
    decreases n,
{
    if n >= 10 {
        push_decimal(out, n / 10);
    }
    out.push(48 + (n % 10) as u8);
    proof {
        assert(out@ =~= old(out)@ + dec_bytes(n as int));
    }
}

/// Appends one pixel's `"R G B\n"` line: gamma correction, clamping,
/// quantization and decimal formatting of each channel.
pub fn write_color(out: &mut Vec<u8>, pixel_color: Color)
    ensures
        final(out)@ == old(out)@ + color_line(pixel_color),
{
    let r = linear_to_gamma(pixel_color.x);
    let g = linear_to_gamma(pixel_color.y);
    let b = linear_to_gamma(pixel_color.z);

    let r_byte = quantize(r);
    let g_byte = quantize(g);
    let b_byte = quantize(b);

    push_decimal(out, r_byte as u32);
    out.push(32);
    push_decimal(out, g_byte as u32);
    out.push(32);
    push_decimal(out, b_byte as u32);
    out.push(10);
    proof {
        assert(out@ =~= old(out)@ + color_line(pixel_color));
    }
}

/// Appends the portable-pixmap header for the given image size.
pub fn write_ppm_header(out: &mut Vec<u8>, width: u32, height: u32)
    ensures
        final(out)@ == old(out)@ + ppm_header_spec(width as int, height as int),
{
    out.push(80);
    out.push(51);
    out.push(10);
    push_decimal(out, width);
    out.push(32);
    push_decimal(out, height);
    out.push(10);
    out.push(50);
    out.push(53);
    out.push(53);
    out.push(10);
    proof {
        assert(out@ =~= old(out)@ + ppm_header_spec(width as int, height as int));
    }
}

} // verus!
