//! Scaling a vector board onto the printer's dot grid.
//!
//! The printed bitmap must be exactly `chars_per_line * pixels_per_char`
//! pixels wide. The board is scaled uniformly; the scale factor is kept as an
//! integer number of hundredths (two decimal places) so that thin grid lines
//! land on consistent pixel boundaries instead of aliasing away, and the
//! height is the intrinsic height scaled by the same factor, rounded to the
//! nearest pixel.
use vstd::arithmetic::div_mod::lemma_div_is_ordered_by_denominator;
use vstd::prelude::*;

verus! {

/// Nearest-integer division of non-negative operands: round(a / b), with an
/// exact half rounded up.
pub open spec fn div_round_nearest(a: int, b: int) -> int {
    (a + b / 2) / b
}

/// The printer's addressable line width in pixels: one cell of
/// `pixels_per_char` dots for each of the `chars_per_line` text columns.
pub open spec fn spec_target_width(chars_per_line: int, pixels_per_char: int) -> int {
    chars_per_line * pixels_per_char
}

/// The uniform scale factor in hundredths: round(100 * target / intrinsic).
pub open spec fn spec_scale100(target_width: int, intrinsic_width: int) -> int {
    div_round_nearest(target_width * 100, intrinsic_width)
}

/// A height of `intrinsic` units under a scale of `scale100` hundredths:
/// round(intrinsic * scale100 / 100).
pub open spec fn spec_scaled_height(intrinsic_height: int, scale100: int) -> int {
    div_round_nearest(intrinsic_height * scale100, 100)
}

/// Why no bitmap could be produced for the board.
#[derive(Clone, Copy, Debug, PartialEq, Eq, Structural)]
pub enum RenderError {
    /// The board's intrinsic width is zero, so no uniform scale exists.
    ZeroIntrinsicWidth,
    /// The scaled height does not fit the canvas coordinate range.
    HeightOverflow,
}

/// Exact pixel width of the printed bitmap for the given device parameters.
pub fn target_width(chars_per_line: u8, pixels_per_char: u8) -> (r: u32)
    ensures
        r == spec_target_width(chars_per_line as int, pixels_per_char as int),
        r <= 65025,
{
    proof {
        assert((chars_per_line as int) * (pixels_per_char as int) <= 65025) by (nonlinear_arith)
            requires
                0 <= chars_per_line as int <= 255,
                0 <= pixels_per_char as int <= 255,
        ;
    }
    (chars_per_line as u32) * (pixels_per_char as u32)
}

/// The applied scale factor in hundredths, a pure function of the target and
/// intrinsic widths.
pub fn scale100(target_width: u32, intrinsic_width: u32) -> (r: u64)
    requires
        intrinsic_width >= 1,
    ensures
        r == spec_scale100(target_width as int, intrinsic_width as int),
        r <= target_width as int * 100 + intrinsic_width as int / 2,
{
    let num: u64 = (target_width as u64) * 100 + (intrinsic_width as u64) / 2;
    let r: u64 = num / (intrinsic_width as u64);
    proof {
        lemma_div_is_ordered_by_denominator(num as int, 1, intrinsic_width as int);
    }
    r
}

/// The scaled board height in pixels, rounded to the nearest integer.
pub fn scaled_height(intrinsic_height: u32, scale100: u64) -> (r: u64)
    requires
        scale100 <= 0xffff_ffff,
    ensures
        r == spec_scaled_height(intrinsic_height as int, scale100 as int),
{
    proof {
        assert((intrinsic_height as int) * (scale100 as int) <= 0xffff_ffff * 0xffff_ffff)
            by (nonlinear_arith)
            requires
                0 <= intrinsic_height as int <= 0xffff_ffff,
                0 <= scale100 as int <= 0xffff_ffff,
        ;
    }
    ((intrinsic_height as u64) * scale100 + 50) / 100
}

/// Pixel dimensions `(width, height)` of the bitmap for a board of the given
/// intrinsic size: the width is exactly `chars_per_line * pixels_per_char`,
/// and the height is the intrinsic height under the same rounded uniform
/// scale. Fails when the intrinsic width is zero or the height leaves the
/// canvas range; in either case no dimensions are produced.
pub fn board_dimensions(
    intrinsic_width: u32,
    intrinsic_height: u32,
    chars_per_line: u8,
    pixels_per_char: u8,
) -> (r: Result<(u32, u32), RenderError>)
    ensures
        ({
            let tw = spec_target_width(chars_per_line as int, pixels_per_char as int);
            let s = spec_scale100(tw, intrinsic_width as int);
            let h = spec_scaled_height(intrinsic_height as int, s);
            &&& (r matches Ok(_) <==> intrinsic_width >= 1 && h <= 0xffff_ffff)
            &&& (r matches Ok(dims) ==> dims.0 == tw && dims.1 == h)
            &&& intrinsic_width == 0 ==> r == Err::<(u32, u32), RenderError>(
                RenderError::ZeroIntrinsicWidth,
            )
            &&& intrinsic_width >= 1 && h > 0xffff_ffff ==> r == Err::<(u32, u32), RenderError>(
                RenderError::HeightOverflow,
            )
        }),
{
    if intrinsic_width == 0 {
        return Err(RenderError::ZeroIntrinsicWidth);
    }
    let tw = target_width(chars_per_line, pixels_per_char);
    let s = scale100(tw, intrinsic_width);
    let h = scaled_height(intrinsic_height, s);
    if h > 0xffff_ffff {
        return Err(RenderError::HeightOverflow);
    }
    Ok((tw, h as u32))
}

} // verus!
