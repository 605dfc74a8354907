//! A Monte Carlo path tracer over an exact fixed-point scalar model.
//!
//! Every real quantity (coordinates, colors, ray parameters) is a [`scalar::Fx`],
//! a signed count of 1/65536 units, so that all geometry, material and
//! integration arithmetic is exact integer arithmetic with stated contracts.

use vstd::prelude::*;

pub mod rng;
pub mod scalar;
pub mod vec3;
pub mod ray;
pub mod render;
pub mod hittable;
pub mod camera;
pub mod color;
pub mod material;

pub use camera::Camera;
pub use color::Rgb;
pub use hittable::{HitRecord, Hittable, HittableList, Sphere};
pub use material::{Dielectric, Lambertian, Metal, SurfaceMaterial};
pub use ray::Ray;
pub use scalar::Fx;
pub use vec3::Vec3;
pub use vec3::Vec3 as Color;
pub use vec3::Vec3 as Point;

use crate::scalar::{abs_i, fxmul, lemma_fraction_below, lemma_fxmul_bound, lemma_mul_bounds, tdiv};

verus! {

/// Largest parametric ray distance the tracer considers, in raw fixed-point
/// units (4096.0): hits beyond it count as misses.
pub const INFINITY: i64 = 0x1000_0000;

/// The circle constant in raw fixed-point units (pi * 65536, truncated).
pub const PI: i64 = 205887;

/// An angle in degrees.
#[derive(Clone, Copy, Debug)]
pub struct Degrees(pub Fx);

/// An angle in radians.
#[derive(Clone, Copy, Debug)]
pub struct Radians(pub Fx);

/// Degrees to radians: the input times [`PI`] over 180, rounded toward zero —
/// so 180 degrees converts exactly to [`PI`].
pub fn degrees_to_radians(degrees: Degrees) -> (r: Radians)
    requires
        abs_i(degrees.0.raw as int) <= 0x100_0000_0000,
    ensures
        r.0.raw == tdiv(degrees.0.raw * PI, 180int * 65536),
{
    proof {
        lemma_mul_bounds(degrees.0.raw as int, PI as int, 0x100_0000_0000, 205887);
        lemma_fxmul_bound(degrees.0.raw as int, PI as int, 0x100_0000_0000, 205887);
    }
    let scaled = degrees.0.mul(Fx::from_raw(PI));
    proof {
        crate::scalar::lemma_tdiv_cancel(scaled.raw as int, 65536, 180);
        crate::scalar::lemma_tdiv_compose(degrees.0.raw * PI, 65536, 180);
    }
    Radians(scaled.div(Fx::from_int(180)))
}

/// `x` forced into `[min, max]`.
pub open spec fn clamp_i(x: int, min: int, max: int) -> int {
    if x < min {
        min
    } else if x > max {
        max
    } else {
        x
    }
}

/// `x` forced into `[min, max]` (callers pass `min <= max`).
pub fn clamp(x: Fx, min: Fx, max: Fx) -> (r: Fx)
    ensures
        r.raw == clamp_i(x.raw as int, min.raw as int, max.raw as int),
{
    if x.raw < min.raw {
        return min;
    }
    if x.raw > max.raw {
        return max;
    }
    x
}

/// A random fixed-point value in `[min, max)` (or exactly `min` when the
/// bounds coincide): `min + (max - min) * u` for a uniform draw `u` in
/// `[0, 1)`.
pub fn random_double(min: Fx, max: Fx) -> (r: Fx)
    requires
        min.raw <= max.raw,
        -0x4000_0000_0000 <= min.raw,
        max.raw <= 0x4000_0000_0000,
    ensures
        min.raw <= r.raw <= max.raw,
        min.raw < max.raw ==> r.raw < max.raw,
        exists|u: int|
            0 <= u < 65536 && r.raw == min.raw + #[trigger] fxmul(max.raw - min.raw, u),
{
    let span = max.sub(min);
    let u = rng::random_unit();
    proof {
        lemma_mul_bounds(span.raw as int, u.raw as int, 0x8000_0000_0000, 65536);
        lemma_fraction_below(span.raw as int, u.raw as int);
    }
    let jump = span.mul(u);
    min.add(jump)
}

} // verus!
