use vstd::prelude::*;

use crate::fixed::{sqrt_floor, tdiv, fx_sqrt, SCALE};
use crate::interval::{clamp_s, Interval, Intervali};
use crate::vec3::{Vec3, Vec3i};

verus! {

pub type Color = Vec3;

/// The clamp range applied before quantization: `[0, 0.999]`.
pub const INTENSITY_MAX: i64 = 1047527;

/// An output pixel: one byte per channel.
#[derive(Clone, Copy, Debug, PartialEq, Eq, Structural)]
pub struct Rgb {
    pub r: u8,
    pub g: u8,
    pub b: u8,
}

/// Approximate gamma-2 encoding: the square root for positive values,
/// zero otherwise.
pub open spec fn linear_to_gamma_s(x: int) -> int {
    if x > 0 {
        sqrt_floor(x * SCALE)
    } else {
        0
    }
}

/// One channel quantized: gamma-encode, clamp to `[0, 0.999]`, scale by
/// 256 and truncate.
pub open spec fn color_byte(x: int) -> int {
    tdiv(
        256 * clamp_s(
            Intervali { min: 0, max: INTENSITY_MAX as int },
            linear_to_gamma_s(x),
        ),
        SCALE as int,
    )
}

fn linear_to_gamma(linear_component: i64) -> (r: i64)
    ensures
        r == linear_to_gamma_s(linear_component as int),
        r >= 0,
{
    if linear_component > 0 {
        fx_sqrt(linear_component)
    } else {
        0
    }
}

/// Quantize an averaged pixel color to its output byte triple.
pub fn write_color(pixel_color: Color) -> (out: Rgb)
    ensures
        out.r == color_byte(pixel_color@.x),
        out.g == color_byte(pixel_color@.y),
        out.b == color_byte(pixel_color@.z),
{
    let intensity = Interval::new(0, INTENSITY_MAX);
    let rbyte = quantize(intensity.clamp(linear_to_gamma(pixel_color.x())));
    let gbyte = quantize(intensity.clamp(linear_to_gamma(pixel_color.y())));
    let bbyte = quantize(intensity.clamp(linear_to_gamma(pixel_color.z())));
    Rgb { r: rbyte, g: gbyte, b: bbyte }
}

/// Translate a clamped channel value to the byte range `[0, 255]`.
fn quantize(clamped: i64) -> (r: u8)
    requires
        0 <= clamped <= INTENSITY_MAX,
    ensures
        r == tdiv(256 * clamped, SCALE as int),
{
    let wide: i64 = clamped * 256;
    let b: i64 = wide / SCALE;
    b as u8
}

} // verus!
