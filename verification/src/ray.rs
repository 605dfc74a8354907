//! Rays: an origin, a direction, and parametrized point evaluation.

use crate::scalar::Fx;
use crate::vec3::{bounded3, scale_ok, tadd, tscale, vraw, Vec3};
use vstd::prelude::*;

verus! {

/// A half-line from `orig` along `dir`; the direction need not be unit length.
#[derive(Clone, Copy, Debug, PartialEq, Eq, Structural)]
pub struct Ray {
    pub orig: Vec3,
    pub dir: Vec3,
}

/// The raw components of the point at parameter `t` (raw count) along `r`:
/// `origin + t * direction`.
pub open spec fn ray_at_spec(r: Ray, t: int) -> (int, int, int) {
    tadd(vraw(r.orig), tscale(vraw(r.dir), t))
}

impl Ray {
    /// A ray from `origin` along `direction`.
    pub fn new(origin: Vec3, direction: Vec3) -> (r: Ray)
        ensures
            r.orig == origin,
            r.dir == direction,
    {
        Ray { orig: origin, dir: direction }
    }

    /// The ray's origin.
    pub fn origin(&self) -> (r: Vec3)
        ensures
            r == self.orig,
    {
        self.orig
    }

    /// The ray's direction.
    pub fn direction(&self) -> (r: Vec3)
        ensures
            r == self.dir,
    {
        self.dir
    }

    /// The point at parameter `t` along the ray; `t` may be negative.
    pub fn at(&self, t: Fx) -> (r: Vec3)
        requires
            scale_ok(vraw(self.dir), t.raw as int),
            bounded3(tscale(vraw(self.dir), t.raw as int), 0x3fff_ffff_ffff_ffff),
            bounded3(vraw(self.orig), 0x3fff_ffff_ffff_ffff),
        ensures
            vraw(r) == ray_at_spec(*self, t.raw as int),
    {
        self.orig.add(self.dir.scale(t))
    }
}

} // verus!
