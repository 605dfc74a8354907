//! The camera: maps normalized image-plane coordinates to world-space rays,
//! with an orientable look-from/look-at/up basis and a thin-lens aperture for
//! depth of field.
//!
//! The vertical field of view enters as the tangent of its half angle (an
//! exact fixed-point value); converting degrees to that tangent is trigonometry
//! and stays with the caller.

use crate::ray::Ray;
use crate::scalar::{fxdiv, fxmul, lemma_fxdiv_bound, lemma_fxmul_bound, lemma_mul_bounds, Fx};
use crate::vec3::{
    bounded3, lemma_cross_safe, lemma_dot_safe, lemma_scale_safe, tadd, tcross, tlensq, tscale,
    tsub, tunit, vraw, Vec3,
};
use vstd::prelude::*;

verus! {

/// A configured camera: origin, viewport frame, lens basis and lens radius.
#[derive(Clone, Copy, Debug)]
pub struct Camera {
    pub origin: Vec3,
    pub lower_left_corner: Vec3,
    pub horizontal: Vec3,
    pub vertical: Vec3,
    pub u: Vec3,
    pub v: Vec3,
    pub lens_radius: Fx,
}

/// The camera's fields lie inside the model's ranges.
pub open spec fn camera_wf(c: Camera) -> bool {
    &&& bounded3(vraw(c.origin), 0x1000_0000)
    &&& bounded3(vraw(c.lower_left_corner), 0x400_0000_0000)
    &&& bounded3(vraw(c.horizontal), 0x200_0000_0000)
    &&& bounded3(vraw(c.vertical), 0x200_0000_0000)
    &&& bounded3(vraw(c.u), 0x10_0000)
    &&& bounded3(vraw(c.v), 0x10_0000)
    &&& 0 <= c.lens_radius.raw <= 0x100_0000
}

/// The forward basis vector: the unit vector from look-at to look-from, with
/// a fixed fallback when the two coincide (a degenerate configuration).
pub open spec fn cam_w(lookfrom: (int, int, int), lookat: (int, int, int)) -> (int, int, int) {
    let d = tsub(lookfrom, lookat);
    if tlensq(d) < 1 {
        (0int, 0int, 65536int)
    } else {
        let w0 = tunit(d);
        if !bounded3(w0, 0x10_0000) {
            (0int, 0int, 65536int)
        } else {
            w0
        }
    }
}

/// The right basis vector: the unit cross product of the up hint and the
/// forward vector, with a fixed fallback when the two are parallel.
pub open spec fn cam_u(vup: (int, int, int), w: (int, int, int)) -> (int, int, int) {
    let c = tcross(vup, w);
    if tlensq(c) < 1 {
        (65536int, 0int, 0int)
    } else {
        let u0 = tunit(c);
        if !bounded3(u0, 0x10_0000) {
            (65536int, 0int, 0int)
        } else {
            u0
        }
    }
}

/// The true-up basis vector: `w x u`, with a fixed fallback when the product
/// leaves the basis range.
pub open spec fn cam_v(w: (int, int, int), u: (int, int, int)) -> (int, int, int) {
    let v0 = tcross(w, u);
    if !bounded3(v0, 0x10_0000) {
        (0int, 65536int, 0int)
    } else {
        v0
    }
}

/// The ray for normalized viewport coordinates `(s, t)` and a lens-disk
/// sample `d`: the origin is jittered by the lens offset expressed in the
/// camera basis, and the direction aims at the focus-plane viewport point.
pub open spec fn get_ray_spec(c: Camera, s: int, t: int, d: (int, int, int)) -> ((int, int, int), (
    int,
    int,
    int,
)) {
    let rd = tscale(d, c.lens_radius.raw as int);
    let offset = tadd(tscale(vraw(c.u), rd.0), tscale(vraw(c.v), rd.1));
    let origin = tadd(vraw(c.origin), offset);
    let dir = tsub(
        tsub(
            tadd(
                tadd(vraw(c.lower_left_corner), tscale(vraw(c.horizontal), s)),
                tscale(vraw(c.vertical), t),
            ),
            vraw(c.origin),
        ),
        offset,
    );
    (origin, dir)
}

/// The forward basis vector for a camera configuration.
fn basis_w(lookfrom: Vec3, lookat: Vec3) -> (w: Vec3)
    requires
        bounded3(vraw(lookfrom), 0x1000_0000),
        bounded3(vraw(lookat), 0x1000_0000),
    ensures
        vraw(w) == cam_w(vraw(lookfrom), vraw(lookat)),
        bounded3(vraw(w), 0x10_0000),
{
    let dirw = lookfrom.sub(lookat);
    proof {
        lemma_dot_safe(vraw(dirw), vraw(dirw), 0x2000_0000, 0x2000_0000);
    }
    if dirw.length_squared().raw < 1 {
        Vec3::new(Fx::from_raw(0), Fx::from_raw(0), Fx::from_raw(65536))
    } else {
        let w0 = dirw.unit_vector();
        if !w0.in_box(0x10_0000) {
            Vec3::new(Fx::from_raw(0), Fx::from_raw(0), Fx::from_raw(65536))
        } else {
            w0
        }
    }
}

/// The right basis vector for a camera configuration.
fn basis_u(vup: Vec3, w: Vec3) -> (u: Vec3)
    requires
        bounded3(vraw(vup), 0x100_0000),
        bounded3(vraw(w), 0x10_0000),
    ensures
        vraw(u) == cam_u(vraw(vup), vraw(w)),
        bounded3(vraw(u), 0x10_0000),
{
    proof {
        lemma_cross_safe(vraw(vup), vraw(w), 0x100_0000, 0x10_0000);
        lemma_dot_safe(tcross(vraw(vup), vraw(w)), tcross(vraw(vup), vraw(w)), 0x2000_0000, 0x2000_0000);
    }
    let cu = vup.cross(w);
    if cu.length_squared().raw < 1 {
        Vec3::new(Fx::from_raw(65536), Fx::from_raw(0), Fx::from_raw(0))
    } else {
        let u0 = cu.unit_vector();
        if !u0.in_box(0x10_0000) {
            Vec3::new(Fx::from_raw(65536), Fx::from_raw(0), Fx::from_raw(0))
        } else {
            u0
        }
    }
}

/// The true-up basis vector for a camera configuration.
fn basis_v(w: Vec3, u: Vec3) -> (v: Vec3)
    requires
        bounded3(vraw(w), 0x10_0000),
        bounded3(vraw(u), 0x10_0000),
    ensures
        vraw(v) == cam_v(vraw(w), vraw(u)),
        bounded3(vraw(v), 0x10_0000),
{
    proof {
        lemma_cross_safe(vraw(w), vraw(u), 0x10_0000, 0x10_0000);
    }
    let v0 = w.cross(u);
    if !v0.in_box(0x10_0000) {
        Vec3::new(Fx::from_raw(0), Fx::from_raw(65536), Fx::from_raw(0))
    } else {
        v0
    }
}

impl Camera {
    /// A camera looking from `lookfrom` toward `lookat`, oriented by the up
    /// hint `vup`, with the given tangent of half the vertical field of view,
    /// aspect ratio, lens aperture (diameter) and focus distance. A zero
    /// aperture collapses to a pinhole camera.
    #[verifier::rlimit(100)]
    pub fn new(
        lookfrom: Vec3,
        lookat: Vec3,
        vup: Vec3,
        vfov_tan_half: Fx,
        aspect_ratio: Fx,
        aperture: Fx,
        focus_dist: Fx,
    ) -> (res: Camera)
        requires
            bounded3(vraw(lookfrom), 0x1000_0000),
            bounded3(vraw(lookat), 0x1000_0000),
            bounded3(vraw(vup), 0x100_0000),
            0 <= vfov_tan_half.raw <= 0x10_0000,
            0 < aspect_ratio.raw <= 0x10_0000,
            0 <= aperture.raw <= 0x100_0000,
            1 <= focus_dist.raw <= 0x100_0000,
        ensures
            res.origin == lookfrom,
            ({
                let w = cam_w(vraw(lookfrom), vraw(lookat));
                let u = cam_u(vraw(vup), w);
                let v = cam_v(w, u);
                let vh = vfov_tan_half.raw + vfov_tan_half.raw;
                let vw = fxmul(aspect_ratio.raw as int, vh);
                &&& vraw(res.u) == u
                &&& vraw(res.v) == v
                &&& vraw(res.horizontal) == tscale(u, fxmul(focus_dist.raw as int, vw))
                &&& vraw(res.vertical) == tscale(v, fxmul(focus_dist.raw as int, vh))
                &&& vraw(res.lower_left_corner) == tsub(
                    tsub(
                        tsub(vraw(lookfrom), tdivk2(tscale(u, fxmul(focus_dist.raw as int, vw)))),
                        tdivk2(tscale(v, fxmul(focus_dist.raw as int, vh))),
                    ),
                    tscale(w, focus_dist.raw as int),
                )
                &&& res.lens_radius.raw == fxdiv(aperture.raw as int, 131072)
            }),
            camera_wf(res),
    {
        let w = basis_w(lookfrom, lookat);
        let u = basis_u(vup, w);
        let v = basis_v(w, u);
        let viewport_height = vfov_tan_half.add(vfov_tan_half);
        proof {
            lemma_mul_bounds(aspect_ratio.raw as int, viewport_height.raw as int, 0x10_0000, 0x20_0000);
            lemma_fxmul_bound(aspect_ratio.raw as int, viewport_height.raw as int, 0x10_0000, 0x20_0000);
        }
        let viewport_width = aspect_ratio.mul(viewport_height);
        proof {
            lemma_mul_bounds(focus_dist.raw as int, viewport_width.raw as int, 0x100_0000, 0x2000_0000);
            lemma_fxmul_bound(focus_dist.raw as int, viewport_width.raw as int, 0x100_0000, 0x2000_0000);
            lemma_mul_bounds(focus_dist.raw as int, viewport_height.raw as int, 0x100_0000, 0x20_0000);
            lemma_fxmul_bound(focus_dist.raw as int, viewport_height.raw as int, 0x100_0000, 0x20_0000);
        }
        let fw = focus_dist.mul(viewport_width);
        let fh = focus_dist.mul(viewport_height);
        proof {
            lemma_scale_safe(vraw(u), fw.raw as int, 0x10_0000, 0x20_0000_0000);
            lemma_scale_safe(vraw(v), fh.raw as int, 0x10_0000, 0x2000_0000);
        }
        let horizontal = u.scale(fw);
        let vertical = v.scale(fh);
        let two = Fx::from_raw(131072);
        proof {
            lemma_fxdiv_bound(horizontal.x.raw as int, 131072, 0x200_0000_0000, 131072);
            lemma_fxdiv_bound(horizontal.y.raw as int, 131072, 0x200_0000_0000, 131072);
            lemma_fxdiv_bound(horizontal.z.raw as int, 131072, 0x200_0000_0000, 131072);
            lemma_fxdiv_bound(vertical.x.raw as int, 131072, 0x200_0000_0000, 131072);
            lemma_fxdiv_bound(vertical.y.raw as int, 131072, 0x200_0000_0000, 131072);
            lemma_fxdiv_bound(vertical.z.raw as int, 131072, 0x200_0000_0000, 131072);
            lemma_scale_safe(vraw(w), focus_dist.raw as int, 0x10_0000, 0x100_0000);
        }
        let half_h = horizontal.div_by(two);
        let half_v = vertical.div_by(two);
        let focus_w = w.scale(focus_dist);
        let lower_left_corner = lookfrom.sub(half_h).sub(half_v).sub(focus_w);
        proof {
            lemma_fxdiv_bound(aperture.raw as int, 131072, 0x100_0000, 131072);
        }
        let lens_radius = aperture.div(two);
        Camera { origin: lookfrom, lower_left_corner, horizontal, vertical, u, v, lens_radius }
    }

    /// The ray through normalized viewport coordinates `(s, t)`, with a random
    /// lens-disk offset; with a zero aperture the offset is exactly zero and
    /// the ray starts at the camera origin.
    pub fn get_ray(&self, s: Fx, t: Fx) -> (res: Ray)
        requires
            camera_wf(*self),
            0 <= s.raw <= 0x2_0000,
            0 <= t.raw <= 0x2_0000,
        ensures
            exists|d: (int, int, int)|
                {
                    &&& bounded3(d, 65536)
                    &&& tlensq(d) < 65536
                    &&& d.2 == 0
                    &&& vraw(res.orig) == get_ray_spec(*self, s.raw as int, t.raw as int, d).0
                    &&& vraw(res.dir) == get_ray_spec(*self, s.raw as int, t.raw as int, d).1
                },
            self.lens_radius.raw == 0 ==> res.orig == self.origin,
    {
        let disk = Vec3::random_in_unit_disk();
        proof {
            lemma_scale_safe(vraw(disk), self.lens_radius.raw as int, 65536, 0x100_0000);
        }
        let rd = disk.scale(self.lens_radius);
        proof {
            lemma_scale_safe(vraw(self.u), rd.x.raw as int, 0x10_0000, 0x100_0000);
            lemma_scale_safe(vraw(self.v), rd.y.raw as int, 0x10_0000, 0x100_0000);
        }
        let offset = self.u.scale(rd.x).add(self.v.scale(rd.y));
        proof {
            lemma_scale_safe(vraw(self.horizontal), s.raw as int, 0x200_0000_0000, 0x2_0000);
            lemma_scale_safe(vraw(self.vertical), t.raw as int, 0x200_0000_0000, 0x2_0000);
        }
        let sh = self.horizontal.scale(s);
        let tv = self.vertical.scale(t);
        let target = self.lower_left_corner.add(sh).add(tv);
        let dir = target.sub(self.origin).sub(offset);
        let origin = self.origin.add(offset);
        let res = Ray::new(origin, dir);
        proof {
            if self.lens_radius.raw == 0 {
                crate::scalar::lemma_fxmul_zero(vraw(disk).0);
                crate::scalar::lemma_fxmul_zero(vraw(disk).1);
                crate::scalar::lemma_fxmul_zero(vraw(disk).2);
                crate::scalar::lemma_fxmul_zero(vraw(self.u).0);
                crate::scalar::lemma_fxmul_zero(vraw(self.u).1);
                crate::scalar::lemma_fxmul_zero(vraw(self.u).2);
                crate::scalar::lemma_fxmul_zero(vraw(self.v).0);
                crate::scalar::lemma_fxmul_zero(vraw(self.v).1);
                crate::scalar::lemma_fxmul_zero(vraw(self.v).2);
            }
            assert({
                &&& bounded3(vraw(disk), 65536)
                &&& tlensq(vraw(disk)) < 65536
                &&& vraw(disk).2 == 0
                &&& vraw(res.orig) == get_ray_spec(*self, s.raw as int, t.raw as int, vraw(disk)).0
                &&& vraw(res.dir) == get_ray_spec(*self, s.raw as int, t.raw as int, vraw(disk)).1
            });
        }
        res
    }
}

/// Componentwise division by two (raw 131072), as the viewport halving uses.
pub open spec fn tdivk2(a: (int, int, int)) -> (int, int, int) {
    (fxdiv(a.0, 131072), fxdiv(a.1, 131072), fxdiv(a.2, 131072))
}

} // verus!
