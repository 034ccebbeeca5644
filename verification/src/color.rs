//! Colours are vectors of fixed-point radiance, and encode to 8-bit
//! channels: average over the sample count, gamma-correct with a square
//! root, clamp to `[0, 0.999]`, quantize.

use vstd::prelude::*;
use crate::vec3::Vec3;
use crate::fixed::{FX_DIV_BOUND, tdiv, fx_sqrt_spec, div_i64, fx_sqrt};

pub use crate::vec3::Vec3 as Color;

verus! {

/// Largest channel value kept by the clamp: `0.999` in raw units,
/// truncated.
pub const CLAMP_MAX: i64 = 65470;

/// What one accumulated channel encodes to: the truncated per-sample
/// average, zero if it is not positive, else its fixed-point square root
/// (gamma 2.0), clamped to `CLAMP_MAX` and quantized by 256.
pub open spec fn encode_channel_spec(v: int, n: int) -> int {
    let avg = tdiv(v, n);
    if avg <= 0 {
        0
    } else {
        let s = fx_sqrt_spec(avg);
        let cl = if s > CLAMP_MAX {
            CLAMP_MAX as int
        } else {
            s
        };
        cl / 256
    }
}

/// Encode one accumulated channel.
fn encode_channel(v: i64, n: i64) -> (r: u8)
    requires
        1 <= n,
        -FX_DIV_BOUND <= v <= FX_DIV_BOUND,
    ensures
        r == encode_channel_spec(v as int, n as int),
        r <= 255,
{
    let avg = div_i64(v, n);
    if avg <= 0 {
        0
    } else {
        let s = fx_sqrt(avg);
        let cl = if s > CLAMP_MAX {
            CLAMP_MAX
        } else {
            s
        };
        ((cl as u64) / 256) as u8
    }
}

impl Color {
    /// Pure black: no radiance on any channel.
    pub fn new_black() -> (c: Color)
        ensures
            c == (Vec3 { x: 0, y: 0, z: 0 }),
    {
        Vec3::new(0, 0, 0)
    }

    /// Encode an accumulated colour to an 8-bit RGB triplet.
    pub fn encode(&self, samples_per_pixel: u32) -> (rgb: (u8, u8, u8))
        requires
            1 <= samples_per_pixel,
            self.abs_le(FX_DIV_BOUND as int),
        ensures
            rgb.0 == encode_channel_spec(self.x as int, samples_per_pixel as int),
            rgb.1 == encode_channel_spec(self.y as int, samples_per_pixel as int),
            rgb.2 == encode_channel_spec(self.z as int, samples_per_pixel as int),
    {
        let n = samples_per_pixel as i64;
        (encode_channel(self.x, n), encode_channel(self.y, n), encode_channel(self.z, n))
    }
}

} // verus!
