//! Color output: averaging a pixel's accumulated sum, gamma correction
//! (square root), clamping, and quantization to integer channels.

use crate::clamp_i;
use crate::scalar::{
    fxdiv, fxsqrt, is_sqrt, lemma_fxdiv_bound, lemma_sqrt_unique, Fx,
};
use crate::vec3::{bounded3, vraw, Vec3};
use vstd::arithmetic::div_mod::{lemma_div_by_multiple, lemma_div_is_ordered};
use vstd::prelude::*;

verus! {

/// One output pixel: integer channels in `[0, 255]`.
#[derive(Clone, Copy, Debug, PartialEq, Eq, Structural)]
pub struct Rgb {
    pub r: u8,
    pub g: u8,
    pub b: u8,
}

/// The integer channel value for one accumulated channel sum: divide by the
/// sample count, gamma-correct by square root (negative sums darken to zero),
/// clamp to `[0, 0.999]`, scale by 256 and truncate.
pub open spec fn quantize(sum: int, samples: int) -> int {
    let avg = fxdiv(sum, samples * 65536);
    let gam = if avg >= 0 {
        fxsqrt(avg)
    } else {
        0
    };
    clamp_i(gam, 0, 65470) / 256
}

/// The three quantized channels of an accumulated pixel sum.
pub open spec fn write_color_spec(c: (int, int, int), samples: int) -> (int, int, int) {
    (quantize(c.0, samples), quantize(c.1, samples), quantize(c.2, samples))
}

/// Quantize one channel.
fn quantize_channel(sum: Fx, samples_per_pixel: u64) -> (res: u8)
    requires
        1 <= samples_per_pixel <= 0x10_0000,
        -0x4000_0000_0000 <= sum.raw <= 0x4000_0000_0000,
    ensures
        res == quantize(sum.raw as int, samples_per_pixel as int),
{
    let denom = Fx::from_int(samples_per_pixel as i64);
    let avg = sum.div(denom);
    let gam = if avg.raw >= 0 {
        avg.sqrt()
    } else {
        Fx::from_raw(0)
    };
    let cl = crate::clamp(gam, Fx::from_raw(0), Fx::from_raw(65470));
    let ch: u64 = (cl.raw as u64) / 256;
    proof {
        lemma_div_is_ordered(cl.raw as int, 65470, 256);
    }
    ch as u8
}

impl Vec3 {
    /// The final integer channels for this accumulated pixel sum: the sum is
    /// averaged over the samples, gamma-corrected, clamped and quantized.
    pub fn write_color(&self, samples_per_pixel: u64) -> (res: Rgb)
        requires
            1 <= samples_per_pixel <= 0x10_0000,
            bounded3(vraw(*self), 0x4000_0000_0000),
        ensures
            (res.r as int, res.g as int, res.b as int) == write_color_spec(
                vraw(*self),
                samples_per_pixel as int,
            ),
    {
        Rgb {
            r: quantize_channel(self.x, samples_per_pixel),
            g: quantize_channel(self.y, samples_per_pixel),
            b: quantize_channel(self.z, samples_per_pixel),
        }
    }
}

/// A pure-white accumulated sum (every sample exactly one) quantizes to
/// channel 255, and an all-zero sum to channel 0: the gamma/clamp pipeline
/// hits both endpoints exactly.
pub proof fn lemma_gamma_endpoints(samples: int)
    requires
        1 <= samples <= 0x10_0000,
    ensures
        quantize(samples * 65536, samples) == 255,
        quantize(0, samples) == 0,
{
    let den = samples * 65536;
    assert(den >= 1) by (nonlinear_arith)
        requires
            samples >= 1,
            den == samples * 65536,
    ;
    lemma_div_by_multiple(65536, den);
    assert((65536 * den) / den == 65536);
    assert(den * 65536 == 65536 * den) by (nonlinear_arith);
    assert(fxdiv(den, den) == 65536);
    assert(65536int * 65536 < 65537int * 65537) by (nonlinear_arith);
    assert(is_sqrt(65536int * 65536, 65536));
    lemma_sqrt_unique(65536int * 65536, 65536);
    assert(fxsqrt(65536) == 65536);
    assert(clamp_i(65536, 0, 65470) == 65470);
    assert(65470int / 256 == 255);
    vstd::arithmetic::div_mod::lemma_div_of0(den);
    assert(fxdiv(0, den) == 0);
    lemma_sqrt_unique(0, 0);
    assert(quantize(0, samples) == 0);
}

} // verus!
