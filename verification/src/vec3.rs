//! Three-component vectors over the fixed-point scalar, used interchangeably
//! as displacements, positions and RGB colors.
//!
//! Every executable operation has an exact contract: the raw components of the
//! result are stated as a spec-level function (`tadd`, `tdot`, `tunit`, ...)
//! of the raw components of the inputs.

use crate::rng::random_unit;
use crate::scalar::{
    abs_i, fxdiv, fxmul, fxsqrt, is_sqrt, lemma_fxmul_bound, lemma_fxmul_fits,
    lemma_mul_bounds, Fx,
};
use vstd::prelude::*;

verus! {

/// A vector of three fixed-point components.
#[derive(Clone, Copy, Debug, PartialEq, Eq, Structural)]
pub struct Vec3 {
    pub x: Fx,
    pub y: Fx,
    pub z: Fx,
}

/// The raw components of a vector, as mathematical integers.
pub open spec fn vraw(v: Vec3) -> (int, int, int) {
    (v.x.raw as int, v.y.raw as int, v.z.raw as int)
}

/// Every component of `t` has magnitude at most `b`.
pub open spec fn bounded3(t: (int, int, int), b: int) -> bool {
    &&& abs_i(t.0) <= b
    &&& abs_i(t.1) <= b
    &&& abs_i(t.2) <= b
}

/// Componentwise sum.
pub open spec fn tadd(a: (int, int, int), b: (int, int, int)) -> (int, int, int) {
    (a.0 + b.0, a.1 + b.1, a.2 + b.2)
}

/// Componentwise difference.
pub open spec fn tsub(a: (int, int, int), b: (int, int, int)) -> (int, int, int) {
    (a.0 - b.0, a.1 - b.1, a.2 - b.2)
}

/// Componentwise negation.
pub open spec fn tneg(a: (int, int, int)) -> (int, int, int) {
    (-a.0, -a.1, -a.2)
}

/// Scaling by the fixed-point value with raw count `k`.
pub open spec fn tscale(a: (int, int, int), k: int) -> (int, int, int) {
    (fxmul(a.0, k), fxmul(a.1, k), fxmul(a.2, k))
}

/// Componentwise division by the fixed-point value with raw count `k`.
pub open spec fn tdivk(a: (int, int, int), k: int) -> (int, int, int) {
    (fxdiv(a.0, k), fxdiv(a.1, k), fxdiv(a.2, k))
}

/// Componentwise product.
pub open spec fn tmul3(a: (int, int, int), b: (int, int, int)) -> (int, int, int) {
    (fxmul(a.0, b.0), fxmul(a.1, b.1), fxmul(a.2, b.2))
}

/// Dot product.
pub open spec fn tdot(a: (int, int, int), b: (int, int, int)) -> int {
    fxmul(a.0, b.0) + fxmul(a.1, b.1) + fxmul(a.2, b.2)
}

/// Cross product.
pub open spec fn tcross(a: (int, int, int), b: (int, int, int)) -> (int, int, int) {
    (
        fxmul(a.1, b.2) - fxmul(a.2, b.1),
        fxmul(a.2, b.0) - fxmul(a.0, b.2),
        fxmul(a.0, b.1) - fxmul(a.1, b.0),
    )
}

/// Squared Euclidean length.
pub open spec fn tlensq(a: (int, int, int)) -> int {
    tdot(a, a)
}

/// Euclidean length (square root of the squared length, rounded down).
pub open spec fn tlen(a: (int, int, int)) -> int {
    fxsqrt(tlensq(a))
}

/// The unit vector in the direction of `a`.
pub open spec fn tunit(a: (int, int, int)) -> (int, int, int) {
    tdivk(a, tlen(a))
}

/// All components below one raw quantum: the smallest representable
/// magnitude, used to catch degenerate scatter directions.
pub open spec fn tnear_zero(a: (int, int, int)) -> bool {
    &&& abs_i(a.0) < 1
    &&& abs_i(a.1) < 1
    &&& abs_i(a.2) < 1
}

/// The smaller of two integers.
pub open spec fn min_i(a: int, b: int) -> int {
    if a < b {
        a
    } else {
        b
    }
}

/// The larger of two integers.
pub open spec fn max_i(a: int, b: int) -> int {
    if a > b {
        a
    } else {
        b
    }
}

/// `u` is a unit sample: the fixed-point normalization of some unit-ball
/// point that was long enough to normalize.
pub open spec fn unit_sample_spec(u: (int, int, int)) -> bool {
    exists|p: (int, int, int)|
        bounded3(p, 65536) && 1 <= tlensq(p) <= 65536 && u == #[trigger] tunit(p)
}

/// Mirror reflection of `v` about the normal `n`: `v - 2 (v . n) n`.
pub open spec fn treflect(v: (int, int, int), n: (int, int, int)) -> (int, int, int) {
    tsub(v, tscale(n, fxmul(131072, tdot(v, n))))
}

/// Snell refraction of the unit vector `uv` at a surface with normal `n` and
/// refractive-index ratio `ratio`, split into perpendicular and parallel parts.
pub open spec fn trefract(v: (int, int, int), n: (int, int, int), ratio: int) -> (int, int, int) {
    let cos_theta = min_i(tdot(tneg(v), n), 65536);
    let perp = tscale(tadd(v, tscale(n, cos_theta)), ratio);
    let par = tscale(n, -fxsqrt(abs_i(65536 - tlensq(perp))));
    tadd(perp, par)
}

/// The componentwise products of `a` and `b` stay well inside the raw range, so
/// that a dot product of the two can be computed.
pub open spec fn dot_ok(a: (int, int, int), b: (int, int, int)) -> bool {
    &&& abs_i(a.0 * b.0) <= 0x2aaa_aaaa_aaaa_aaaa * 0x10000
    &&& abs_i(a.1 * b.1) <= 0x2aaa_aaaa_aaaa_aaaa * 0x10000
    &&& abs_i(a.2 * b.2) <= 0x2aaa_aaaa_aaaa_aaaa * 0x10000
}

/// The componentwise products of `a` and `b` fit the raw range.
pub open spec fn mul3_ok(a: (int, int, int), b: (int, int, int)) -> bool {
    &&& abs_i(a.0 * b.0) <= 0x7fff_ffff_ffff_ffff * 0x10000
    &&& abs_i(a.1 * b.1) <= 0x7fff_ffff_ffff_ffff * 0x10000
    &&& abs_i(a.2 * b.2) <= 0x7fff_ffff_ffff_ffff * 0x10000
}

/// The products of `k` with the components of `a` fit the raw range.
pub open spec fn scale_ok(a: (int, int, int), k: int) -> bool {
    &&& abs_i(a.0 * k) <= 0x7fff_ffff_ffff_ffff * 0x10000
    &&& abs_i(a.1 * k) <= 0x7fff_ffff_ffff_ffff * 0x10000
    &&& abs_i(a.2 * k) <= 0x7fff_ffff_ffff_ffff * 0x10000
}

/// The six cross products of components of `a` and `b` stay well inside the
/// raw range, so that a cross product of the two can be computed.
pub open spec fn cross_ok(a: (int, int, int), b: (int, int, int)) -> bool {
    &&& abs_i(a.1 * b.2) <= 0x3fff_ffff_ffff_ffff * 0x10000
    &&& abs_i(a.2 * b.1) <= 0x3fff_ffff_ffff_ffff * 0x10000
    &&& abs_i(a.2 * b.0) <= 0x3fff_ffff_ffff_ffff * 0x10000
    &&& abs_i(a.0 * b.2) <= 0x3fff_ffff_ffff_ffff * 0x10000
    &&& abs_i(a.0 * b.1) <= 0x3fff_ffff_ffff_ffff * 0x10000
    &&& abs_i(a.1 * b.0) <= 0x3fff_ffff_ffff_ffff * 0x10000
}

/// Componentwise bounds justify a dot product and bound its value.
pub proof fn lemma_dot_safe(a: (int, int, int), b: (int, int, int), aa: int, bb: int)
    requires
        bounded3(a, aa),
        bounded3(b, bb),
        0 <= aa,
        0 <= bb,
        aa * bb <= 0x2aaa_aaaa_aaaa_aaaa * 0x10000,
    ensures
        dot_ok(a, b),
        abs_i(tdot(a, b)) <= 3 * ((aa * bb) / 65536),
{
    lemma_mul_bounds(a.0, b.0, aa, bb);
    lemma_mul_bounds(a.1, b.1, aa, bb);
    lemma_mul_bounds(a.2, b.2, aa, bb);
    lemma_fxmul_bound(a.0, b.0, aa, bb);
    lemma_fxmul_bound(a.1, b.1, aa, bb);
    lemma_fxmul_bound(a.2, b.2, aa, bb);
}

/// Componentwise bounds justify a scaling and bound its result.
pub proof fn lemma_scale_safe(a: (int, int, int), k: int, aa: int, kk: int)
    requires
        bounded3(a, aa),
        -kk <= k <= kk,
        0 <= aa,
        0 <= kk,
        aa * kk <= 0x7fff_ffff_ffff_ffff * 0x10000,
    ensures
        scale_ok(a, k),
        bounded3(tscale(a, k), (aa * kk) / 65536),
{
    lemma_mul_bounds(a.0, k, aa, kk);
    lemma_mul_bounds(a.1, k, aa, kk);
    lemma_mul_bounds(a.2, k, aa, kk);
    lemma_fxmul_bound(a.0, k, aa, kk);
    lemma_fxmul_bound(a.1, k, aa, kk);
    lemma_fxmul_bound(a.2, k, aa, kk);
}

/// Componentwise bounds justify a componentwise product and bound its result.
pub proof fn lemma_mul3_safe(a: (int, int, int), b: (int, int, int), aa: int, bb: int)
    requires
        bounded3(a, aa),
        bounded3(b, bb),
        0 <= aa,
        0 <= bb,
        aa * bb <= 0x7fff_ffff_ffff_ffff * 0x10000,
    ensures
        mul3_ok(a, b),
        bounded3(tmul3(a, b), (aa * bb) / 65536),
{
    lemma_mul_bounds(a.0, b.0, aa, bb);
    lemma_mul_bounds(a.1, b.1, aa, bb);
    lemma_mul_bounds(a.2, b.2, aa, bb);
    lemma_fxmul_bound(a.0, b.0, aa, bb);
    lemma_fxmul_bound(a.1, b.1, aa, bb);
    lemma_fxmul_bound(a.2, b.2, aa, bb);
}

/// Componentwise bounds justify a cross product and bound its result.
pub proof fn lemma_cross_safe(a: (int, int, int), b: (int, int, int), aa: int, bb: int)
    requires
        bounded3(a, aa),
        bounded3(b, bb),
        0 <= aa,
        0 <= bb,
        aa * bb <= 0x3fff_ffff_ffff_ffff * 0x10000,
    ensures
        cross_ok(a, b),
        bounded3(tcross(a, b), 2 * ((aa * bb) / 65536)),
{
    lemma_mul_bounds(a.1, b.2, aa, bb);
    lemma_mul_bounds(a.2, b.1, aa, bb);
    lemma_mul_bounds(a.2, b.0, aa, bb);
    lemma_mul_bounds(a.0, b.2, aa, bb);
    lemma_mul_bounds(a.0, b.1, aa, bb);
    lemma_mul_bounds(a.1, b.0, aa, bb);
    lemma_fxmul_bound(a.1, b.2, aa, bb);
    lemma_fxmul_bound(a.2, b.1, aa, bb);
    lemma_fxmul_bound(a.2, b.0, aa, bb);
    lemma_fxmul_bound(a.0, b.2, aa, bb);
    lemma_fxmul_bound(a.0, b.1, aa, bb);
    lemma_fxmul_bound(a.1, b.0, aa, bb);
}

impl Vec3 {
    /// The vector with the given components.
    pub fn new(x: Fx, y: Fx, z: Fx) -> (r: Vec3)
        ensures
            r.x == x,
            r.y == y,
            r.z == z,
    {
        Vec3 { x, y, z }
    }

    /// First component.
    pub fn x(self) -> (r: Fx)
        ensures
            r == self.x,
    {
        self.x
    }

    /// Second component.
    pub fn y(self) -> (r: Fx)
        ensures
            r == self.y,
    {
        self.y
    }

    /// Third component.
    pub fn z(self) -> (r: Fx)
        ensures
            r == self.z,
    {
        self.z
    }

    /// Component by axis index; an index outside `{0, 1, 2}` is a programming
    /// error and is excluded by contract.
    pub fn get(self, index: u8) -> (r: Fx)
        requires
            index < 3,
        ensures
            index == 0 ==> r == self.x,
            index == 1 ==> r == self.y,
            index == 2 ==> r == self.z,
    {
        if index == 0 {
            self.x
        } else if index == 1 {
            self.y
        } else {
            self.z
        }
    }

    /// Exact componentwise sum.
    pub fn add(self, o: Vec3) -> (r: Vec3)
        requires
            bounded3(vraw(self), 0x3fff_ffff_ffff_ffff),
            bounded3(vraw(o), 0x3fff_ffff_ffff_ffff),
        ensures
            vraw(r) == tadd(vraw(self), vraw(o)),
    {
        Vec3 { x: self.x.add(o.x), y: self.y.add(o.y), z: self.z.add(o.z) }
    }

    /// Exact componentwise difference.
    pub fn sub(self, o: Vec3) -> (r: Vec3)
        requires
            bounded3(vraw(self), 0x3fff_ffff_ffff_ffff),
            bounded3(vraw(o), 0x3fff_ffff_ffff_ffff),
        ensures
            vraw(r) == tsub(vraw(self), vraw(o)),
    {
        Vec3 { x: self.x.sub(o.x), y: self.y.sub(o.y), z: self.z.sub(o.z) }
    }

    /// Exact componentwise negation.
    pub fn neg(self) -> (r: Vec3)
        requires
            bounded3(vraw(self), 0x7fff_ffff_ffff_ffff),
        ensures
            vraw(r) == tneg(vraw(self)),
    {
        Vec3 { x: self.x.neg(), y: self.y.neg(), z: self.z.neg() }
    }

    /// Scaling by a fixed-point factor, each component rounded toward zero.
    pub fn scale(self, k: Fx) -> (r: Vec3)
        requires
            scale_ok(vraw(self), k.raw as int),
        ensures
            vraw(r) == tscale(vraw(self), k.raw as int),
    {
        Vec3 { x: self.x.mul(k), y: self.y.mul(k), z: self.z.mul(k) }
    }

    /// Componentwise division by a fixed-point factor, rounded toward zero.
    pub fn div_by(self, k: Fx) -> (r: Vec3)
        requires
            k.raw != 0,
            bounded3(vraw(self), 0x4000_0000_0000),
        ensures
            vraw(r) == tdivk(vraw(self), k.raw as int),
            bounded3(vraw(r), 0x4000_0000_0000_0000),
    {
        Vec3 { x: self.x.div(k), y: self.y.div(k), z: self.z.div(k) }
    }

    /// Componentwise product, each component rounded toward zero.
    pub fn comp_mul(self, o: Vec3) -> (r: Vec3)
        requires
            mul3_ok(vraw(self), vraw(o)),
        ensures
            vraw(r) == tmul3(vraw(self), vraw(o)),
    {
        Vec3 { x: self.x.mul(o.x), y: self.y.mul(o.y), z: self.z.mul(o.z) }
    }

    /// Dot product: the sum of the three fixed-point component products.
    pub fn dot(self, o: Vec3) -> (r: Fx)
        requires
            dot_ok(vraw(self), vraw(o)),
        ensures
            r.raw == tdot(vraw(self), vraw(o)),
    {
        proof {
            lemma_fxmul_fits(self.x.raw as int, o.x.raw as int, 0x2aaa_aaaa_aaaa_aaaa);
            lemma_fxmul_fits(self.y.raw as int, o.y.raw as int, 0x2aaa_aaaa_aaaa_aaaa);
            lemma_fxmul_fits(self.z.raw as int, o.z.raw as int, 0x2aaa_aaaa_aaaa_aaaa);
        }
        let fx = self.x.mul(o.x);
        let fy = self.y.mul(o.y);
        let fz = self.z.mul(o.z);
        fx.add(fy).add(fz)
    }

    /// Cross product.
    pub fn cross(self, o: Vec3) -> (r: Vec3)
        requires
            cross_ok(vraw(self), vraw(o)),
        ensures
            vraw(r) == tcross(vraw(self), vraw(o)),
    {
        proof {
            lemma_fxmul_fits(self.y.raw as int, o.z.raw as int, 0x3fff_ffff_ffff_ffff);
            lemma_fxmul_fits(self.z.raw as int, o.y.raw as int, 0x3fff_ffff_ffff_ffff);
            lemma_fxmul_fits(self.z.raw as int, o.x.raw as int, 0x3fff_ffff_ffff_ffff);
            lemma_fxmul_fits(self.x.raw as int, o.z.raw as int, 0x3fff_ffff_ffff_ffff);
            lemma_fxmul_fits(self.x.raw as int, o.y.raw as int, 0x3fff_ffff_ffff_ffff);
            lemma_fxmul_fits(self.y.raw as int, o.x.raw as int, 0x3fff_ffff_ffff_ffff);
        }
        Vec3 {
            x: self.y.mul(o.z).sub(self.z.mul(o.y)),
            y: self.z.mul(o.x).sub(self.x.mul(o.z)),
            z: self.x.mul(o.y).sub(self.y.mul(o.x)),
        }
    }

    /// Squared length; never negative.
    pub fn length_squared(self) -> (r: Fx)
        requires
            dot_ok(vraw(self), vraw(self)),
        ensures
            r.raw == tlensq(vraw(self)),
            r.raw >= 0,
    {
        proof {
            lemma_fxsquare_nonneg(self.x.raw as int);
            lemma_fxsquare_nonneg(self.y.raw as int);
            lemma_fxsquare_nonneg(self.z.raw as int);
        }
        self.dot(self)
    }

    /// Length: the fixed-point square root of the squared length.
    pub fn length(self) -> (r: Fx)
        requires
            dot_ok(vraw(self), vraw(self)),
        ensures
            r.raw == tlen(vraw(self)),
            is_sqrt(tlensq(vraw(self)) * 65536, r.raw as int),
            r.raw >= 0,
    {
        self.length_squared().sqrt()
    }

    /// The unit vector in this direction. The caller guarantees a direction
    /// that is not below one raw quantum in squared length.
    pub fn unit_vector(self) -> (r: Vec3)
        requires
            dot_ok(vraw(self), vraw(self)),
            tlensq(vraw(self)) >= 1,
            bounded3(vraw(self), 0x4000_0000_0000),
        ensures
            vraw(r) == tunit(vraw(self)),
            bounded3(vraw(r), 0x4000_0000_0000_0000),
    {
        let len = self.length();
        assert(len.raw >= 256) by (nonlinear_arith)
            requires
                is_sqrt(tlensq(vraw(self)) * 65536, len.raw as int),
                tlensq(vraw(self)) >= 1,
        ;
        self.div_by(len)
    }

    /// Does every component's magnitude stay within `b`?
    pub fn in_box(self, b: i64) -> (r: bool)
        requires
            b >= 0,
        ensures
            r == bounded3(vraw(self), b as int),
    {
        -b <= self.x.raw && self.x.raw <= b && -b <= self.y.raw && self.y.raw <= b && -b
            <= self.z.raw && self.z.raw <= b
    }

    /// All components below one raw quantum.
    pub fn near_zero(self) -> (r: bool)
        ensures
            r == tnear_zero(vraw(self)),
    {
        self.x.raw == 0 && self.y.raw == 0 && self.z.raw == 0
    }

    /// Mirror reflection about a surface normal: `v - 2 (v . n) n`.
    pub fn reflect(v: Vec3, n: Vec3) -> (r: Vec3)
        requires
            bounded3(vraw(v), 0x10_0000),
            bounded3(vraw(n), 0x10_0000),
        ensures
            vraw(r) == treflect(vraw(v), vraw(n)),
            bounded3(vraw(r), 0x8000_0000),
    {
        proof {
            lemma_dot_safe(vraw(v), vraw(n), 0x10_0000, 0x10_0000);
        }
        let d = v.dot(n);
        proof {
            lemma_mul_bounds(131072, d.raw as int, 131072, 0x300_0000);
            lemma_fxmul_bound(131072, d.raw as int, 131072, 0x300_0000);
        }
        let two_d = Fx::from_raw(131072).mul(d);
        proof {
            lemma_scale_safe(vraw(n), two_d.raw as int, 0x10_0000, 0x600_0000);
        }
        let scaled = n.scale(two_d);
        v.sub(scaled)
    }

    /// Snell refraction of the unit direction `v` at a surface with outward
    /// normal `n`, for a refractive-index ratio `ratio`.
    pub fn refract(v: Vec3, n: Vec3, ratio: Fx) -> (r: Vec3)
        requires
            bounded3(vraw(v), 0x10_0000),
            bounded3(vraw(n), 0x10_0000),
            abs_i(ratio.raw as int) <= 0x10_0000,
        ensures
            vraw(r) == trefract(vraw(v), vraw(n), ratio.raw as int),
            bounded3(vraw(r), 0x100_0000_0000),
    {
        proof {
            lemma_dot_safe(tneg(vraw(v)), vraw(n), 0x10_0000, 0x10_0000);
        }
        let vn = v.neg();
        let cos_full = vn.dot(n);
        let cos_theta = if cos_full.raw < 65536 {
            cos_full
        } else {
            Fx::from_raw(65536)
        };
        assert(cos_theta.raw == min_i(tdot(tneg(vraw(v)), vraw(n)), 65536));
        proof {
            lemma_scale_safe(vraw(n), cos_theta.raw as int, 0x10_0000, 0x300_0000);
        }
        let cos_n = n.scale(cos_theta);
        let inner = v.add(cos_n);
        proof {
            lemma_scale_safe(vraw(inner), ratio.raw as int, 0x3010_0000, 0x10_0000);
        }
        let perp = inner.scale(ratio);
        proof {
            lemma_dot_safe(vraw(perp), vraw(perp), 0x3_0100_0000, 0x3_0100_0000);
        }
        let perp_lensq = perp.length_squared();
        let one_minus = Fx::from_raw(65536).sub(perp_lensq);
        let root = one_minus.abs().sqrt();
        proof {
            assert(root.raw <= 0x8_0000_0000) by (nonlinear_arith)
                requires
                    root.raw >= 0,
                    root.raw * root.raw <= abs_i(65536 - perp_lensq.raw as int) * 65536,
                    abs_i(65536 - perp_lensq.raw as int) <= 0x20_0000_0000_0000,
            ;
            lemma_scale_safe(vraw(n), -root.raw as int, 0x10_0000, 0x8_0000_0000);
        }
        let par = n.scale(root.neg());
        perp.add(par)
    }

    /// A vector with three independent random components in `[min, max)`.
    pub fn random(min: Fx, max: Fx) -> (r: Vec3)
        requires
            min.raw <= max.raw,
            -0x4000_0000_0000 <= min.raw,
            max.raw <= 0x4000_0000_0000,
        ensures
            min.raw <= r.x.raw <= max.raw,
            min.raw <= r.y.raw <= max.raw,
            min.raw <= r.z.raw <= max.raw,
    {
        Vec3 {
            x: crate::random_double(min, max),
            y: crate::random_double(min, max),
            z: crate::random_double(min, max),
        }
    }

    /// A random point strictly inside the unit ball, by rejection sampling.
    /// After a bounded run of rejections it falls back to a fixed interior
    /// point, so that the function is total.
    pub fn random_in_unit_sphere() -> (r: Vec3)
        ensures
            bounded3(vraw(r), 65536),
            tlensq(vraw(r)) < 65536,
    {
        let neg_one = Fx::from_raw(-65536);
        let one = Fx::from_raw(65536);
        let mut tries: u8 = 0;
        while tries < 64
            invariant
                neg_one.raw == -65536,
                one.raw == 65536,
            decreases 64 - tries,
        {
            let p = Vec3::random(neg_one, one);
            proof {
                lemma_dot_safe(vraw(p), vraw(p), 65536, 65536);
            }
            let lsq = p.length_squared();
            if lsq.raw < 65536 {
                return p;
            }
            tries = tries + 1;
        }
        proof {
            assert(32768int * 32768 == 16384 * 65536) by (nonlinear_arith);
            crate::scalar::lemma_fxmul_exact(32768, 32768, 16384);
            crate::scalar::lemma_fxmul_exact(0, 0, 0);
        }
        Vec3 { x: Fx::from_raw(32768), y: Fx::from_raw(0), z: Fx::from_raw(0) }
    }

    /// A random direction of (fixed-point) unit length: a unit-ball sample,
    /// normalized. Samples too short to normalize are rejected along the way.
    pub fn random_unit_vector() -> (r: Vec3)
        ensures
            unit_sample_spec(vraw(r)),
            bounded3(vraw(r), 0x100_0000),
    {
        let mut tries: u8 = 0;
        while tries < 64
            decreases 64 - tries,
        {
            let p = Vec3::random_in_unit_sphere();
            proof {
                lemma_dot_safe(vraw(p), vraw(p), 65536, 65536);
            }
            let lsq = p.length_squared();
            if lsq.raw >= 1 {
                let u = p.unit_vector();
                proof {
                    crate::scalar::lemma_sqrt_exists(tlensq(vraw(p)) * 65536);
                    assert(tlen(vraw(p)) >= 256) by (nonlinear_arith)
                        requires
                            is_sqrt(tlensq(vraw(p)) * 65536, tlen(vraw(p))),
                            tlensq(vraw(p)) >= 1,
                    ;
                    crate::scalar::lemma_fxdiv_bound(vraw(p).0, tlen(vraw(p)), 65536, 256);
                    crate::scalar::lemma_fxdiv_bound(vraw(p).1, tlen(vraw(p)), 65536, 256);
                    crate::scalar::lemma_fxdiv_bound(vraw(p).2, tlen(vraw(p)), 65536, 256);
                    assert(bounded3(vraw(p), 65536) && 1 <= tlensq(vraw(p)) <= 65536 && vraw(u)
                        == tunit(vraw(p)));
                }
                return u;
            }
            tries = tries + 1;
        }
        let r = Vec3 { x: Fx::from_raw(65536), y: Fx::from_raw(0), z: Fx::from_raw(0) };
        proof {
            let p = (65536int, 0int, 0int);
            crate::scalar::lemma_fxmul_exact(65536, 65536, 65536);
            crate::scalar::lemma_fxmul_exact(0, 0, 0);
            assert(tlensq(p) == 65536);
            assert(65536int * 65536 < 65537int * 65537) by (nonlinear_arith);
            assert(is_sqrt(65536int * 65536, 65536));
            crate::scalar::lemma_sqrt_unique(65536int * 65536, 65536);
            assert(tlen(p) == 65536);
            assert(fxdiv(65536, 65536) == fxmul(65536, 65536));
            assert(fxdiv(0, 65536) == fxmul(0, 65536));
            crate::scalar::lemma_fxmul_exact(0, 65536, 0);
            assert(vraw(r) == tunit(p));
            assert(bounded3(p, 65536) && 1 <= tlensq(p) <= 65536 && vraw(r) == tunit(p));
        }
        r
    }

    /// A random unit-ball sample on the same side of the surface as `normal`:
    /// the raw sample, flipped when it points against the normal.
    pub fn random_in_hemisphere(normal: Vec3) -> (r: Vec3)
        requires
            bounded3(vraw(normal), 0x100_0000_0000),
        ensures
            bounded3(vraw(r), 65536),
            tlensq(vraw(r)) < 65536,
            tdot(vraw(r), vraw(normal)) >= 0,
    {
        let in_unit_sphere = Vec3::random_in_unit_sphere();
        proof {
            lemma_dot_safe(vraw(in_unit_sphere), vraw(normal), 65536, 0x100_0000_0000);
        }
        if in_unit_sphere.dot(normal).raw > 0 {
            in_unit_sphere
        } else {
            proof {
                let q = vraw(in_unit_sphere);
                let n = vraw(normal);
                assert((-q.0) * (-q.0) == q.0 * q.0) by (nonlinear_arith);
                assert((-q.1) * (-q.1) == q.1 * q.1) by (nonlinear_arith);
                assert((-q.2) * (-q.2) == q.2 * q.2) by (nonlinear_arith);
                assert((-q.0) * n.0 == q.0 * (-n.0)) by (nonlinear_arith);
                assert((-q.1) * n.1 == q.1 * (-n.1)) by (nonlinear_arith);
                assert((-q.2) * n.2 == q.2 * (-n.2)) by (nonlinear_arith);
                crate::scalar::lemma_fxmul_neg(q.0, n.0);
                crate::scalar::lemma_fxmul_neg(q.1, n.1);
                crate::scalar::lemma_fxmul_neg(q.2, n.2);
            }
            in_unit_sphere.neg()
        }
    }

    /// A random point strictly inside the unit disk of the xy-plane, for lens
    /// sampling; total by the same bounded rejection scheme as the ball.
    pub fn random_in_unit_disk() -> (r: Vec3)
        ensures
            bounded3(vraw(r), 65536),
            tlensq(vraw(r)) < 65536,
            r.z.raw == 0,
    {
        let neg_one = Fx::from_raw(-65536);
        let one = Fx::from_raw(65536);
        let mut tries: u8 = 0;
        while tries < 64
            invariant
                neg_one.raw == -65536,
                one.raw == 65536,
            decreases 64 - tries,
        {
            let p = Vec3 {
                x: crate::random_double(neg_one, one),
                y: crate::random_double(neg_one, one),
                z: Fx::from_raw(0),
            };
            proof {
                lemma_dot_safe(vraw(p), vraw(p), 65536, 65536);
            }
            let lsq = p.length_squared();
            if lsq.raw < 65536 {
                return p;
            }
            tries = tries + 1;
        }
        proof {
            assert(32768int * 32768 == 16384 * 65536) by (nonlinear_arith);
            crate::scalar::lemma_fxmul_exact(32768, 32768, 16384);
            crate::scalar::lemma_fxmul_exact(0, 0, 0);
        }
        Vec3 { x: Fx::from_raw(32768), y: Fx::from_raw(0), z: Fx::from_raw(0) }
    }
}

/// A fixed-point square is never negative.
pub proof fn lemma_fxsquare_nonneg(a: int)
    ensures
        fxmul(a, a) >= 0,
{
    assert(a * a >= 0) by (nonlinear_arith);
    assert(abs_i(a * a) / 65536 >= 0) by (nonlinear_arith)
        requires
            abs_i(a * a) >= 0,
    ;
}

} // verus!
