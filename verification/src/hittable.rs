//! Scene geometry: the intersection capability, spheres, and the aggregate
//! list that reports the nearest hit.
//!
//! The model bounds (positions within 4096 units, directions within 256 units,
//! parametric distances within 4096 units) are machine limits of the raw
//! fixed-point range; every contract is exact inside them.

use crate::material::{material_wf, SurfaceMaterial};
use crate::ray::{ray_at_spec, Ray};
use crate::scalar::{
    abs_i, fxdiv, fxmul, fxsqrt, lemma_fxdiv_bound, lemma_fxmul_bound, lemma_fxmul_neg,
    lemma_mul_bounds, Fx,
};
use crate::vec3::{
    bounded3, dot_ok, lemma_dot_safe, lemma_fxsquare_nonneg, lemma_scale_safe, tdivk, tdot, tneg,
    tlensq, tsub, vraw, Vec3,
};
use vstd::prelude::*;

verus! {

/// A recorded intersection: hit point, outward-corrected normal, parametric
/// distance, side flag, and the material of the object that was hit.
#[derive(Clone, Copy, Debug)]
pub struct HitRecord {
    pub p: Vec3,
    pub normal: Vec3,
    pub t: Fx,
    pub front_face: bool,
    pub material: SurfaceMaterial,
}

/// The ray lies inside the model bounds: origin within the coordinate range,
/// direction within the direction range and not quantized to zero.
pub open spec fn ray_wf(r: Ray) -> bool {
    &&& bounded3(vraw(r.orig), 0x1000_0000)
    &&& bounded3(vraw(r.dir), 0x100_0000)
    &&& tlensq(vraw(r.dir)) >= 1
}

/// The front-face flag and outward-corrected normal for a direction and an
/// outward normal: the reported normal always faces the incoming ray.
pub open spec fn face_normal_spec(dir: (int, int, int), outward: (int, int, int)) -> (
    bool,
    (int, int, int),
) {
    let front = tdot(dir, outward) < 0;
    (front, if front {
        outward
    } else {
        tneg(outward)
    })
}

impl HitRecord {
    /// The front-face flag (does the ray approach from outside?) and the
    /// normal corrected to face the incoming ray.
    pub fn get_face_normal(r: &Ray, outward_normal: Vec3) -> (res: (bool, Vec3))
        requires
            dot_ok(vraw(r.dir), vraw(outward_normal)),
            bounded3(vraw(outward_normal), 0x7fff_ffff_ffff_ffff),
        ensures
            res.0 == face_normal_spec(vraw(r.dir), vraw(outward_normal)).0,
            vraw(res.1) == face_normal_spec(vraw(r.dir), vraw(outward_normal)).1,
            tdot(vraw(r.dir), vraw(res.1)) <= 0,
    {
        let d = r.direction().dot(outward_normal);
        let front_face = d.raw < 0;
        let normal = if front_face {
            outward_normal
        } else {
            proof {
                let dd = vraw(r.dir);
                let oo = vraw(outward_normal);
                lemma_fxmul_neg(dd.0, oo.0);
                lemma_fxmul_neg(dd.1, oo.1);
                lemma_fxmul_neg(dd.2, oo.2);
            }
            outward_normal.neg()
        };
        (front_face, normal)
    }
}

/// Geometry that a ray can hit. `hit` reports an intersection with parametric
/// distance inside `[t_min, t_max]` only, and its result is pinned down by the
/// implementation's own `spec_hit`.
pub trait Hittable {
    /// The object lies inside the model bounds.
    spec fn hittable_wf(&self) -> bool;

    /// What `hit` returns, as a function of the ray and the window.
    spec fn spec_hit(&self, r: Ray, t_min: int, t_max: int) -> Option<HitRecord>;

    /// The nearest intersection in `[t_min, t_max]`, if any. A reported hit
    /// lies inside the window and its normal faces the incoming ray.
    fn hit(&self, r: &Ray, t_min: Fx, t_max: Fx) -> (res: Option<HitRecord>)
        requires
            self.hittable_wf(),
            ray_wf(*r),
            0 <= t_min.raw,
            t_max.raw <= 0x1000_0000,
        ensures
            res == self.spec_hit(*r, t_min.raw as int, t_max.raw as int),
            res matches Some(rec) ==> t_min.raw <= rec.t.raw <= t_max.raw && tdot(
                vraw(r.dir),
                vraw(rec.normal),
            ) <= 0 && material_wf(rec.material),
    ;
}

/// A sphere: center, signed radius (a negative radius flips the normal, the
/// hollow-shell trick), and its material.
#[derive(Clone, Copy, Debug)]
pub struct Sphere {
    pub center: Vec3,
    pub radius: Fx,
    pub material: SurfaceMaterial,
}

/// The sphere lies inside the model bounds; the radius is signed and nonzero.
pub open spec fn sphere_wf(s: Sphere) -> bool {
    &&& bounded3(vraw(s.center), 0x1000_0000)
    &&& 1 <= abs_i(s.radius.raw as int) <= 0x1000_0000
    &&& material_wf(s.material)
}

/// `origin - center`.
pub open spec fn sphere_oc(s: Sphere, r: Ray) -> (int, int, int) {
    tsub(vraw(r.orig), vraw(s.center))
}

/// The quadratic's leading coefficient: the squared direction length.
pub open spec fn sphere_a(r: Ray) -> int {
    tlensq(vraw(r.dir))
}

/// Half the quadratic's middle coefficient: `oc . direction`.
pub open spec fn sphere_half_b(s: Sphere, r: Ray) -> int {
    tdot(sphere_oc(s, r), vraw(r.dir))
}

/// The quadratic's constant coefficient: `|oc|^2 - radius^2`.
pub open spec fn sphere_c(s: Sphere, r: Ray) -> int {
    tlensq(sphere_oc(s, r)) - fxmul(s.radius.raw as int, s.radius.raw as int)
}

/// The (quarter) discriminant `half_b^2 - a c`; negative means no hit.
pub open spec fn sphere_disc(s: Sphere, r: Ray) -> int {
    fxmul(sphere_half_b(s, r), sphere_half_b(s, r)) - fxmul(sphere_a(r), sphere_c(s, r))
}

/// The smaller quadratic root `(-half_b - sqrt(disc)) / a`.
pub open spec fn sphere_root1(s: Sphere, r: Ray) -> int {
    fxdiv(-sphere_half_b(s, r) - fxsqrt(sphere_disc(s, r)), sphere_a(r))
}

/// The larger quadratic root `(-half_b + sqrt(disc)) / a`.
pub open spec fn sphere_root2(s: Sphere, r: Ray) -> int {
    fxdiv(-sphere_half_b(s, r) + fxsqrt(sphere_disc(s, r)), sphere_a(r))
}

/// A vector from raw component values.
pub open spec fn vec_from(t: (int, int, int)) -> Vec3 {
    Vec3 { x: Fx { raw: t.0 as i64 }, y: Fx { raw: t.1 as i64 }, z: Fx { raw: t.2 as i64 } }
}

impl Sphere {
    /// A sphere with the given center, signed nonzero radius and material,
    /// within the model bounds.
    pub fn new(cen: Vec3, r: Fx, material: SurfaceMaterial) -> (res: Sphere)
        requires
            bounded3(vraw(cen), 0x1000_0000),
            1 <= abs_i(r.raw as int) <= 0x1000_0000,
            material_wf(material),
        ensures
            res.center == cen,
            res.radius == r,
            res.material == material,
            sphere_wf(res),
    {
        Sphere { center: cen, radius: r, material }
    }

    /// The hit record for the accepted root `t`.
    pub open spec fn record_at(&self, r: Ray, t: int) -> HitRecord {
        let p = ray_at_spec(r, t);
        let outward = tdivk(tsub(p, vraw(self.center)), self.radius.raw as int);
        let fo = face_normal_spec(vraw(r.dir), outward);
        HitRecord {
            p: vec_from(p),
            normal: vec_from(fo.1),
            t: Fx { raw: t as i64 },
            front_face: fo.0,
            material: self.material,
        }
    }
}

impl Hittable for Sphere {
    open spec fn hittable_wf(&self) -> bool {
        sphere_wf(*self)
    }

    /// Solve `a t^2 + 2 half_b t + c = 0`; a negative discriminant is a miss,
    /// otherwise the smaller root is preferred and the larger tried next, and
    /// a root outside `[t_min, t_max]` is rejected.
    open spec fn spec_hit(&self, r: Ray, t_min: int, t_max: int) -> Option<HitRecord> {
        if sphere_disc(*self, r) < 0 {
            None
        } else if t_min <= sphere_root1(*self, r) <= t_max {
            Some(self.record_at(r, sphere_root1(*self, r)))
        } else if t_min <= sphere_root2(*self, r) <= t_max {
            Some(self.record_at(r, sphere_root2(*self, r)))
        } else {
            None
        }
    }

    fn hit(&self, r: &Ray, t_min: Fx, t_max: Fx) -> (res: Option<HitRecord>) {
        let oc = r.origin().sub(self.center);
        proof {
            lemma_dot_safe(vraw(r.dir), vraw(r.dir), 0x100_0000, 0x100_0000);
            lemma_dot_safe(sphere_oc(*self, *r), vraw(r.dir), 0x2000_0000, 0x100_0000);
        }
        let a = r.direction().length_squared();
        let half_b = oc.dot(r.direction());
        proof {
            lemma_dot_safe(sphere_oc(*self, *r), sphere_oc(*self, *r), 0x2000_0000, 0x2000_0000);
            lemma_mul_bounds(self.radius.raw as int, self.radius.raw as int, 0x1000_0000, 0x1000_0000);
            lemma_fxmul_bound(self.radius.raw as int, self.radius.raw as int, 0x1000_0000, 0x1000_0000);
            lemma_fxsquare_nonneg(self.radius.raw as int);
        }
        let oc_len_sq = oc.length_squared();
        let rsq = self.radius.mul(self.radius);
        let c = oc_len_sq.sub(rsq);
        proof {
            lemma_mul_bounds(
                sphere_half_b(*self, *r),
                sphere_half_b(*self, *r),
                0x60_0000_0000,
                0x60_0000_0000,
            );
            lemma_fxmul_bound(
                sphere_half_b(*self, *r),
                sphere_half_b(*self, *r),
                0x60_0000_0000,
                0x60_0000_0000,
            );
            lemma_fxsquare_nonneg(sphere_half_b(*self, *r));
            lemma_mul_bounds(sphere_a(*r), sphere_c(*self, *r), 0x3_0000_0000, 0xc10_0000_0000);
            lemma_fxmul_bound(sphere_a(*r), sphere_c(*self, *r), 0x3_0000_0000, 0xc10_0000_0000);
        }
        let hb2 = half_b.mul(half_b);
        let ac = a.mul(c);
        let discriminant = hb2.sub(ac);
        if discriminant.raw < 0 {
            return None;
        }
        let sqrtd = discriminant.sqrt();
        let neg_hb = half_b.neg();
        let num1 = neg_hb.sub(sqrtd);
        let root1 = num1.div(a);
        if t_min.raw <= root1.raw && root1.raw <= t_max.raw {
            return Some(self.make_record(r, root1));
        }
        let num2 = neg_hb.add(sqrtd);
        let root2 = num2.div(a);
        if t_min.raw <= root2.raw && root2.raw <= t_max.raw {
            return Some(self.make_record(r, root2));
        }
        None
    }
}

impl Sphere {
    /// Build the hit record for an accepted root.
    fn make_record(&self, r: &Ray, root: Fx) -> (res: HitRecord)
        requires
            sphere_wf(*self),
            ray_wf(*r),
            0 <= root.raw <= 0x1000_0000,
        ensures
            res == self.record_at(*r, root.raw as int),
            tdot(vraw(r.dir), vraw(res.normal)) <= 0,
    {
        proof {
            lemma_scale_safe(vraw(r.dir), root.raw as int, 0x100_0000, 0x1000_0000);
        }
        let p = r.at(root);
        let diff = p.sub(self.center);
        let outward = diff.div_by(self.radius);
        proof {
            let dtri = tsub(ray_at_spec(*r, root.raw as int), vraw(self.center));
            lemma_fxdiv_bound(dtri.0, self.radius.raw as int, 0x11_1000_0000, 1);
            lemma_fxdiv_bound(dtri.1, self.radius.raw as int, 0x11_1000_0000, 1);
            lemma_fxdiv_bound(dtri.2, self.radius.raw as int, 0x11_1000_0000, 1);
            lemma_dot_safe(
                vraw(r.dir),
                tdivk(dtri, self.radius.raw as int),
                0x100_0000,
                0x11_1000_0000_0000,
            );
        }
        let fo = HitRecord::get_face_normal(r, outward);
        HitRecord { p, normal: fo.1, t: root, front_face: fo.0, material: self.material }
    }
}

/// An insertion-ordered collection of scene objects, hit-tested as one
/// aggregate: the nearest hit wins, and the window narrows as members are
/// visited, pruning farther candidates.
pub struct HittableList {
    pub objects: Vec<Sphere>,
}

/// The nearest-hit fold over the remaining members: each member is tested
/// against the window narrowed to the closest hit found so far.
pub open spec fn list_hit_from(
    objs: Seq<Sphere>,
    r: Ray,
    t_min: int,
    closest: int,
    best: Option<HitRecord>,
) -> Option<HitRecord>
    decreases objs.len(),
{
    if objs.len() == 0 {
        best
    } else {
        match objs[0].spec_hit(r, t_min, closest) {
            Some(rec) => list_hit_from(
                objs.subrange(1, objs.len() as int),
                r,
                t_min,
                rec.t.raw as int,
                Some(rec),
            ),
            None => list_hit_from(objs.subrange(1, objs.len() as int), r, t_min, closest, best),
        }
    }
}

impl HittableList {
    /// An empty scene.
    pub fn new() -> (r: HittableList)
        ensures
            r.objects@.len() == 0,
    {
        HittableList { objects: Vec::new() }
    }

    /// Append an object; insertion order is kept.
    pub fn add(&mut self, object: Sphere)
        ensures
            final(self).objects@ == old(self).objects@.push(object),
    {
        self.objects.push(object)
    }

    /// Remove every object.
    pub fn clear(&mut self)
        ensures
            final(self).objects@.len() == 0,
    {
        self.objects.clear()
    }
}

impl Hittable for HittableList {
    open spec fn hittable_wf(&self) -> bool {
        forall|i: int|
            0 <= i < self.objects@.len() ==> (#[trigger] self.objects@[i]).hittable_wf()
    }

    /// The fold over all members, starting from the full window and no hit.
    open spec fn spec_hit(&self, r: Ray, t_min: int, t_max: int) -> Option<HitRecord> {
        list_hit_from(self.objects@, r, t_min, t_max, None)
    }

    fn hit(&self, r: &Ray, t_min: Fx, t_max: Fx) -> (res: Option<HitRecord>) {
        let mut temp_rec: Option<HitRecord> = None;
        let mut closest_so_far = t_max;
        let n = self.objects.len();
        let mut i: usize = 0;
        proof {
            assert(self.objects@.skip(0) =~= self.objects@);
        }
        while i < n
            invariant
                n == self.objects@.len(),
                0 <= i <= n,
                self.hittable_wf(),
                ray_wf(*r),
                0 <= t_min.raw,
                t_max.raw <= 0x1000_0000,
                closest_so_far.raw <= t_max.raw,
                temp_rec is None ==> closest_so_far == t_max,
                temp_rec matches Some(rec) ==> t_min.raw <= rec.t.raw && rec.t == closest_so_far
                    && tdot(vraw(r.dir), vraw(rec.normal)) <= 0 && material_wf(rec.material),
                list_hit_from(
                    self.objects@.skip(i as int),
                    *r,
                    t_min.raw as int,
                    closest_so_far.raw as int,
                    temp_rec,
                ) == self.spec_hit(*r, t_min.raw as int, t_max.raw as int),
            decreases n - i,
        {
            let ghost prev = self.objects@.skip(i as int);
            assert(self.objects@[i as int].hittable_wf());
            let res = self.objects[i].hit(r, t_min, closest_so_far);
            proof {
                assert(prev[0] == self.objects@[i as int]);
                assert(prev.subrange(1, prev.len() as int) =~= self.objects@.skip(i as int + 1));
            }
            match res {
                Some(rec) => {
                    closest_so_far = rec.t;
                    temp_rec = Some(rec);
                },
                None => {},
            }
            i = i + 1;
        }
        proof {
            assert(self.objects@.skip(n as int) =~= Seq::<Sphere>::empty());
        }
        temp_rec
    }
}

/// For a ray whose quadratic has a solution, the smaller root never exceeds
/// the larger, and the discriminant's square root is nonnegative.
pub proof fn lemma_sphere_roots_ordered(s: Sphere, r: Ray)
    requires
        sphere_disc(s, r) >= 0,
        sphere_a(r) >= 1,
    ensures
        sphere_root1(s, r) <= sphere_root2(s, r),
        fxsqrt(sphere_disc(s, r)) >= 0,
{
    crate::scalar::lemma_sqrt_exists(sphere_disc(s, r) * 65536);
    let h = sphere_half_b(s, r);
    let sq = fxsqrt(sphere_disc(s, r));
    assert((-h - sq) * 65536 <= (-h + sq) * 65536) by (nonlinear_arith)
        requires
            sq >= 0,
    ;
    crate::scalar::lemma_tdiv_monotone((-h - sq) * 65536, (-h + sq) * 65536, sphere_a(r));
}

/// Root selection: a negative discriminant is a miss; otherwise a window
/// admitting the smaller root reports it, a window admitting only the larger
/// root reports that one, and a window admitting neither reports no hit.
pub proof fn lemma_sphere_root_selection(s: Sphere, r: Ray, t_min: int, t_max: int)
    ensures
        sphere_disc(s, r) < 0 ==> s.spec_hit(r, t_min, t_max) is None,
        sphere_disc(s, r) >= 0 && t_min <= sphere_root1(s, r) <= t_max ==> s.spec_hit(
            r,
            t_min,
            t_max,
        ) == Some(s.record_at(r, sphere_root1(s, r))),
        sphere_disc(s, r) >= 0 && !(t_min <= sphere_root1(s, r) <= t_max) && t_min <= sphere_root2(
            s,
            r,
        ) <= t_max ==> s.spec_hit(r, t_min, t_max) == Some(s.record_at(r, sphere_root2(s, r))),
        sphere_disc(s, r) >= 0 && !(t_min <= sphere_root1(s, r) <= t_max) && !(t_min
            <= sphere_root2(s, r) <= t_max) ==> s.spec_hit(r, t_min, t_max) is None,
{
}

/// The outward-corrected normal never points along the incoming direction:
/// the front-face flag holds exactly when the ray comes from outside, and the
/// chosen normal's dot product with the direction is never positive.
pub proof fn lemma_face_normal_orientation(dir: (int, int, int), outward: (int, int, int))
    ensures
        face_normal_spec(dir, outward).0 == (tdot(dir, outward) < 0),
        tdot(dir, face_normal_spec(dir, outward).1) <= 0,
{
    lemma_fxmul_neg(dir.0, outward.0);
    lemma_fxmul_neg(dir.1, outward.1);
    lemma_fxmul_neg(dir.2, outward.2);
}

/// Shrinking the window below a reported hit does not change the hit, as long
/// as the hit still fits.
pub proof fn lemma_hit_window_shrink(s: Sphere, r: Ray, t_min: int, c: int, cp: int)
    requires
        cp <= c,
        -0x7fff_ffff_ffff_ffff <= t_min,
        c <= 0x7fff_ffff_ffff_ffff,
    ensures
        s.spec_hit(r, t_min, c) is Some && s.spec_hit(r, t_min, c)->Some_0.t.raw <= cp
            ==> s.spec_hit(r, t_min, cp) == s.spec_hit(r, t_min, c),
{
    let hc = s.spec_hit(r, t_min, c);
    if hc is Some && hc->Some_0.t.raw <= cp {
        let m = hc->Some_0;
        let r1 = sphere_root1(s, r);
        let r2 = sphere_root2(s, r);
        if t_min <= r1 <= c {
            assert(m == s.record_at(r, r1));
            assert(m.t.raw == r1);
        } else {
            assert(t_min <= r2 <= c);
            assert(m == s.record_at(r, r2));
            assert(m.t.raw == r2);
        }
    }
}

/// Widening the window can only bring the reported hit nearer (the smaller
/// root may become admissible), never lose it.
pub proof fn lemma_hit_window_widen(s: Sphere, r: Ray, t_min: int, cp: int, c: int)
    requires
        cp <= c,
        sphere_a(r) >= 1,
        -0x7fff_ffff_ffff_ffff <= t_min,
        c <= 0x7fff_ffff_ffff_ffff,
    ensures
        s.spec_hit(r, t_min, cp) is Some ==> (s.spec_hit(r, t_min, c) is Some && s.spec_hit(
            r,
            t_min,
            c,
        )->Some_0.t.raw <= s.spec_hit(r, t_min, cp)->Some_0.t.raw),
{
    if s.spec_hit(r, t_min, cp) is Some {
        let m = s.spec_hit(r, t_min, cp)->Some_0;
        lemma_sphere_roots_ordered(s, r);
        let r1 = sphere_root1(s, r);
        let r2 = sphere_root2(s, r);
        if t_min <= r1 <= cp {
            assert(m == s.record_at(r, r1));
            assert(m.t.raw == r1);
        } else {
            assert(t_min <= r2 <= cp);
            assert(m == s.record_at(r, r2));
            assert(m.t.raw == r2);
            if t_min <= r1 <= c {
                assert(s.spec_hit(r, t_min, c) == Some(s.record_at(r, r1)));
                assert(s.record_at(r, r1).t.raw == r1);
            }
        }
    }
}

/// The inductive heart of nearest-hit aggregation, over the fold with its
/// narrowing window and best-so-far accumulator.
#[verifier::rlimit(100)]
#[verifier::spinoff_prover]
pub proof fn lemma_list_fold_nearest(
    objs: Seq<Sphere>,
    r: Ray,
    t_min: int,
    c: int,
    best: Option<HitRecord>,
)
    requires
        sphere_a(r) >= 1,
        -0x7fff_ffff_ffff_ffff <= t_min,
        c <= 0x7fff_ffff_ffff_ffff,
        best is Some ==> best->Some_0.t.raw == c,
    ensures
        list_hit_from(objs, r, t_min, c, best) is None <==> (best is None && forall|k: int|
            0 <= k < objs.len() ==> (#[trigger] objs[k].spec_hit(r, t_min, c)) is None),
        list_hit_from(objs, r, t_min, c, best) is Some ==> list_hit_from(
            objs,
            r,
            t_min,
            c,
            best,
        )->Some_0.t.raw <= c,
        best is Some ==> (list_hit_from(objs, r, t_min, c, best) is Some && list_hit_from(
            objs,
            r,
            t_min,
            c,
            best,
        )->Some_0.t.raw <= best->Some_0.t.raw),
        forall|k: int|
            0 <= k < objs.len() && (#[trigger] objs[k].spec_hit(r, t_min, c)) is Some
                ==> (list_hit_from(objs, r, t_min, c, best) is Some && list_hit_from(
                objs,
                r,
                t_min,
                c,
                best,
            )->Some_0.t.raw <= objs[k].spec_hit(r, t_min, c)->Some_0.t.raw),
        list_hit_from(objs, r, t_min, c, best) is Some ==> ((best is Some && list_hit_from(
            objs,
            r,
            t_min,
            c,
            best,
        ) == best) || exists|k: int|
            0 <= k < objs.len() && (#[trigger] objs[k].spec_hit(r, t_min, c)) is Some && objs[k].spec_hit(
                r,
                t_min,
                c,
            )->Some_0.t.raw == list_hit_from(objs, r, t_min, c, best)->Some_0.t.raw),
    decreases objs.len(),
{
    let res = list_hit_from(objs, r, t_min, c, best);
    if objs.len() == 0 {
    } else {
        let first = objs[0];
        let rest = objs.subrange(1, objs.len() as int);
        if first.spec_hit(r, t_min, c) is Some {
            let m0 = first.spec_hit(r, t_min, c)->Some_0;
            let cp = m0.t.raw as int;
            assert(t_min <= cp <= c) by {
                if t_min <= sphere_root1(first, r) <= c {
                    assert(m0 == first.record_at(r, sphere_root1(first, r)));
                } else {
                    assert(m0 == first.record_at(r, sphere_root2(first, r)));
                }
            }
            lemma_list_fold_nearest(rest, r, t_min, cp, Some(m0));
            assert(res == list_hit_from(rest, r, t_min, cp, Some(m0)));
            assert(res is Some);
            let rec = res->Some_0;
            assert(rec.t.raw <= cp);
            assert forall|k: int|
                0 <= k < objs.len() && (#[trigger] objs[k].spec_hit(r, t_min, c)) is Some implies (
            res is Some && res->Some_0.t.raw <= objs[k].spec_hit(r, t_min, c)->Some_0.t.raw) by {
                if k == 0 {
                } else {
                    assert(rest[k - 1] == objs[k]);
                    let m = objs[k].spec_hit(r, t_min, c)->Some_0;
                    if m.t.raw <= cp {
                        lemma_hit_window_shrink(objs[k], r, t_min, c, cp);
                        assert(rest[k - 1].spec_hit(r, t_min, cp) == Some(m));
                    }
                }
            }
            if rec == m0 {
                assert(0 <= 0 < objs.len() && (objs[0].spec_hit(r, t_min, c)) is Some && objs[0].spec_hit(
                    r,
                    t_min,
                    c,
                )->Some_0.t.raw == rec.t.raw);
                assert(exists|k: int|
                    0 <= k < objs.len() && (#[trigger] objs[k].spec_hit(r, t_min, c)) is Some
                        && objs[k].spec_hit(r, t_min, c)->Some_0.t.raw == res->Some_0.t.raw);
            } else {
                let kp = choose|kp: int|
                    0 <= kp < rest.len() && (#[trigger] rest[kp].spec_hit(r, t_min, cp)) is Some
                        && rest[kp].spec_hit(r, t_min, cp)->Some_0.t.raw == rec.t.raw;
                lemma_hit_window_widen(rest[kp], r, t_min, cp, c);
                assert(rest[kp] == objs[kp + 1]);
                let m2 = objs[kp + 1].spec_hit(r, t_min, c)->Some_0;
                assert(m2.t.raw <= rec.t.raw);
                assert(rec.t.raw <= m2.t.raw);
                assert(0 <= kp + 1 < objs.len() && (objs[kp + 1].spec_hit(r, t_min, c)) is Some
                    && objs[kp + 1].spec_hit(r, t_min, c)->Some_0.t.raw == rec.t.raw);
                assert(exists|k: int|
                    0 <= k < objs.len() && (#[trigger] objs[k].spec_hit(r, t_min, c)) is Some
                        && objs[k].spec_hit(r, t_min, c)->Some_0.t.raw == res->Some_0.t.raw);
            }
        } else {
            lemma_list_fold_nearest(rest, r, t_min, c, best);
            assert(res == list_hit_from(rest, r, t_min, c, best));
            assert forall|k: int|
                0 <= k < objs.len() && (#[trigger] objs[k].spec_hit(r, t_min, c)) is Some implies (
            res is Some && res->Some_0.t.raw <= objs[k].spec_hit(r, t_min, c)->Some_0.t.raw) by {
                assert(k != 0);
                assert(rest[k - 1] == objs[k]);
            }
            if res is Some {
                let rec = res->Some_0;
                if !(best is Some && res == best) {
                    let kp = choose|kp: int|
                        0 <= kp < rest.len() && (#[trigger] rest[kp].spec_hit(r, t_min, c)) is Some
                            && rest[kp].spec_hit(r, t_min, c)->Some_0.t.raw == rec.t.raw;
                    assert(rest[kp] == objs[kp + 1]);
                    assert(0 <= kp + 1 < objs.len() && (objs[kp + 1].spec_hit(r, t_min, c))
                        is Some && objs[kp + 1].spec_hit(r, t_min, c)->Some_0.t.raw == rec.t.raw);
                    assert(exists|k: int|
                        0 <= k < objs.len() && (#[trigger] objs[k].spec_hit(r, t_min, c)) is Some
                            && objs[k].spec_hit(r, t_min, c)->Some_0.t.raw == res->Some_0.t.raw);
                }
            }
            if res is None {
                assert forall|k: int| 0 <= k < objs.len() implies (#[trigger] objs[k].spec_hit(
                    r,
                    t_min,
                    c,
                )) is None by {
                    if k > 0 {
                        assert(rest[k - 1] == objs[k]);
                    }
                }
            }
        }
    }
}

/// Nearest-hit aggregation: the list reports a hit exactly when some member
/// does; the reported distance is no farther than any member's own hit and
/// equals some member's hit — the nearest valid hit wins, whatever the
/// insertion order.
pub proof fn lemma_nearest_hit(list: HittableList, r: Ray, t_min: int, t_max: int)
    requires
        sphere_a(r) >= 1,
        -0x7fff_ffff_ffff_ffff <= t_min,
        t_max <= 0x7fff_ffff_ffff_ffff,
    ensures
        list.spec_hit(r, t_min, t_max) is None <==> (forall|k: int|
            0 <= k < list.objects@.len() ==> (#[trigger] list.objects@[k].spec_hit(
                r,
                t_min,
                t_max,
            )) is None),
        forall|k: int|
            0 <= k < list.objects@.len() && (#[trigger] list.objects@[k].spec_hit(
                r,
                t_min,
                t_max,
            )) is Some ==> (list.spec_hit(r, t_min, t_max) is Some && list.spec_hit(
                r,
                t_min,
                t_max,
            )->Some_0.t.raw <= list.objects@[k].spec_hit(r, t_min, t_max)->Some_0.t.raw),
        list.spec_hit(r, t_min, t_max) is Some ==> exists|k: int|
            0 <= k < list.objects@.len() && (#[trigger] list.objects@[k].spec_hit(
                r,
                t_min,
                t_max,
            )) is Some && list.objects@[k].spec_hit(r, t_min, t_max)->Some_0.t.raw == list.spec_hit(
                r,
                t_min,
                t_max,
            )->Some_0.t.raw,
{
    lemma_list_fold_nearest(list.objects@, r, t_min, t_max, None);
}

/// Two overlapping spheres report the same nearest distance in either
/// insertion order: the order decides at most which record breaks an exact
/// tie, never which distance wins.
#[verifier::rlimit(100)]
#[verifier::spinoff_prover]
pub proof fn lemma_two_spheres_order_irrelevant(
    la: HittableList,
    lb: HittableList,
    s1: Sphere,
    s2: Sphere,
    r: Ray,
    t_min: int,
    t_max: int,
)
    requires
        la.objects@ == seq![s1, s2],
        lb.objects@ == seq![s2, s1],
        sphere_a(r) >= 1,
        -0x7fff_ffff_ffff_ffff <= t_min,
        t_max <= 0x7fff_ffff_ffff_ffff,
    ensures
        la.spec_hit(r, t_min, t_max) is Some <==> lb.spec_hit(r, t_min, t_max) is Some,
        la.spec_hit(r, t_min, t_max) is Some ==> la.spec_hit(r, t_min, t_max)->Some_0.t.raw
            == lb.spec_hit(r, t_min, t_max)->Some_0.t.raw,
{
    lemma_nearest_hit(la, r, t_min, t_max);
    lemma_nearest_hit(lb, r, t_min, t_max);
    assert(la.objects@[0] == s1 && la.objects@[1] == s2);
    assert(lb.objects@[0] == s2 && lb.objects@[1] == s1);
    if la.spec_hit(r, t_min, t_max) is Some {
        assert(s1.spec_hit(r, t_min, t_max) is Some || s2.spec_hit(r, t_min, t_max) is Some);
        assert(lb.spec_hit(r, t_min, t_max) is Some);
        let ta = la.spec_hit(r, t_min, t_max)->Some_0.t.raw;
        let tb = lb.spec_hit(r, t_min, t_max)->Some_0.t.raw;
        let ka = choose|k: int|
            0 <= k < la.objects@.len() && (#[trigger] la.objects@[k].spec_hit(r, t_min, t_max))
                is Some && la.objects@[k].spec_hit(r, t_min, t_max)->Some_0.t.raw == ta;
        let kb = choose|k: int|
            0 <= k < lb.objects@.len() && (#[trigger] lb.objects@[k].spec_hit(r, t_min, t_max))
                is Some && lb.objects@[k].spec_hit(r, t_min, t_max)->Some_0.t.raw == tb;
        assert(la.objects@[ka] == s1 || la.objects@[ka] == s2);
        assert(lb.objects@[kb] == s1 || lb.objects@[kb] == s2);
        assert(ta <= tb && tb <= ta);
    } else {
        assert(s1.spec_hit(r, t_min, t_max) is None && s2.spec_hit(r, t_min, t_max) is None);
        assert forall|k: int| 0 <= k < lb.objects@.len() implies (#[trigger] lb.objects@[k].spec_hit(
            r,
            t_min,
            t_max,
        )) is None by {
            assert(lb.objects@[k] == s1 || lb.objects@[k] == s2);
        }
    }
}

} // verus!
