//! Contrast calculation: derive a legible foreground color from a
//! background color.
//!
//! The luminance of a color is `0.8 * (0.299 r + 0.587 g + 0.114 b)`;
//! the factor 0.8 compensates for a background rendered at 80% opacity
//! over a dark surface. All arithmetic is exact: the library carries the
//! luminance scaled by 10000, so the weights become the integers
//! 2392, 4696 and 912.

use vstd::prelude::*;

verus! {

/// An RGB color with 8-bit channels and no alpha.
#[derive(Clone, Copy, PartialEq, Eq, Structural, Debug)]
pub struct Color {
    pub r: u8,
    pub g: u8,
    pub b: u8,
}

/// The luminance of a color, scaled by 10000:
/// `10000 * 0.8 * (0.299 r + 0.587 g + 0.114 b)`.
pub open spec fn luminance_scaled(c: Color) -> int {
    2392 * c.r + 4696 * c.g + 912 * c.b
}

/// A color counts as light when its luminance reaches 128
/// (1_280_000 in the scaled form).
pub open spec fn is_light(c: Color) -> bool {
    luminance_scaled(c) >= 1280000
}

/// The luminance the foreground aims for: darken a light background
/// toward 64, brighten a dark one toward 128.
pub open spec fn target_luminance(c: Color) -> int {
    if is_light(c) {
        64
    } else {
        128
    }
}

/// One output channel: the input channel scaled by `target / luminance`,
/// rounded half away from zero, and capped at 255. `lum` is the scaled
/// luminance, so the exact quotient is `ch * target * 10000 / lum`.
pub open spec fn scaled_channel(ch: u8, target: int, lum: int) -> int
    recommends
        0 < lum,
{
    let rounded = (2 * ch * target * 10000 + lum) / (2 * lum);
    if rounded > 255 {
        255
    } else {
        rounded
    }
}

/// The contrasting foreground color for a background color. A pure black
/// background has zero luminance, which gives the scaling no direction:
/// that case yields the brightest foreground instead.
pub open spec fn contrast_color(c: Color) -> Color {
    if luminance_scaled(c) == 0 {
        Color { r: 255, g: 255, b: 255 }
    } else {
        Color {
            r: scaled_channel(c.r, target_luminance(c), luminance_scaled(c)) as u8,
            g: scaled_channel(c.g, target_luminance(c), luminance_scaled(c)) as u8,
            b: scaled_channel(c.b, target_luminance(c), luminance_scaled(c)) as u8,
        }
    }
}

/// The scaled luminance of the channel triple `(r, g, b)`.
pub fn calc_luminance_scaled(r: u8, g: u8, b: u8) -> (l: u64)
    ensures
        l == luminance_scaled(Color { r, g, b }),
        l <= 2040000,
{
    2392 * (r as u64) + 4696 * (g as u64) + 912 * (b as u64)
}

/// One output channel, computed exactly as `scaled_channel` states it.
fn scale_channel(ch: u8, target: u64, lum: u64) -> (out: u8)
    requires
        0 < lum <= 2040000,
        target <= 128,
    ensures
        out == scaled_channel(ch, target as int, lum as int),
{
    proof {
        assert((ch as int) * (target as int) <= 255 * 128) by (nonlinear_arith)
            requires
                0 <= ch as int <= 255,
                0 <= target as int <= 128,
        ;
    }
    let p: u64 = (ch as u64) * target;
    let num: u64 = 2 * p * 10000 + lum;
    proof {
        assert(2 * ((ch as int) * (target as int)) * 10000 == 2 * (ch as int) * (target as int)
            * 10000) by (nonlinear_arith);
    }
    let rounded: u64 = num / (2 * lum);
    if rounded > 255 {
        255
    } else {
        rounded as u8
    }
}

/// The contrasting foreground for the background channels `(r, g, b)`.
pub fn calc_contrast_color(r: u8, g: u8, b: u8) -> (res: (u8, u8, u8))
    ensures
        ({
            let out = contrast_color(Color { r, g, b });
            res == (out.r, out.g, out.b)
        }),
{
    let lum = calc_luminance_scaled(r, g, b);
    if lum == 0 {
        (255, 255, 255)
    } else {
        let target: u64 = if lum >= 1280000 {
            64
        } else {
            128
        };
        (scale_channel(r, target, lum), scale_channel(g, target, lum), scale_channel(b, target, lum))
    }
}

/// The contrast computation is a pure function of the input color:
/// equal inputs give equal outputs, however often it is applied.
pub proof fn lemma_contrast_deterministic(c1: Color, c2: Color)
    requires
        c1 == c2,
    ensures
        contrast_color(c1) == contrast_color(c2),
{
}

/// Target selection: a background at or above the luminance threshold
/// gets the light-side target 64 (darken); one below it gets the
/// dark-side target 128 (brighten).
pub proof fn lemma_target_selection(c: Color)
    ensures
        luminance_scaled(c) >= 1280000 ==> target_luminance(c) == 64,
        luminance_scaled(c) < 1280000 ==> target_luminance(c) == 128,
{
}

/// Zero luminance happens exactly on pure black, and that case yields
/// the fixed bright foreground rather than an undefined scaling.
pub proof fn lemma_zero_luminance(c: Color)
    ensures
        luminance_scaled(c) == 0 <==> c == (Color { r: 0, g: 0, b: 0 }),
        luminance_scaled(c) == 0 ==> contrast_color(c) == (Color { r: 255, g: 255, b: 255 }),
{
}

} // verus!
