//! Surface materials: a closed set of tagged variants (diffuse, specular,
//! refractive), immutable after construction and shared read-only by hits.
//!
//! Each variant's behavior is pinned down by a deterministic `scatter_with`
//! function that takes the random draw as an argument; the trait `scatter`
//! makes the draw and states what holds of every outcome.

use crate::hittable::HitRecord;
use crate::ray::Ray;
use crate::rng::random_unit;
use crate::scalar::{
    fxdiv, fxmul, fxsqrt, is_sqrt, lemma_fxdiv_bound, lemma_fxdiv_lt_one, lemma_fxmul_bound,
    lemma_mul_bounds, Fx,
};
use crate::vec3::{
    bounded3, lemma_dot_safe, lemma_fxsquare_nonneg, lemma_scale_safe, max_i, min_i, tadd, tdot,
    tlensq, tneg, treflect, trefract, tscale, tunit, tnear_zero, unit_sample_spec, vraw, Vec3,
};
use vstd::arithmetic::div_mod::lemma_div_is_ordered_by_denominator;
use vstd::prelude::*;

verus! {

/// All components are within `[0, 1]` (raw counts within `[0, 65536]`): a
/// physically meaningful color that cannot amplify energy.
pub open spec fn color01(c: (int, int, int)) -> bool {
    &&& 0 <= c.0 <= 65536
    &&& 0 <= c.1 <= 65536
    &&& 0 <= c.2 <= 65536
}

/// A material turns an incoming ray and a hit into an attenuation color and a
/// scattered ray, or absorbs the ray (`None`). Every attenuation lies in
/// `[0, 1]` per component, and every scattered ray starts at the hit point.
pub trait Material {
    /// The material's configuration lies inside the model's ranges.
    spec fn material_valid(&self) -> bool;

    /// Scatter the incoming ray at the hit, or absorb it.
    fn scatter(&self, ray_in: &Ray, rec: &HitRecord) -> (res: Option<(Vec3, Ray)>)
        requires
            self.material_valid(),
        ensures
            res matches Some(s) ==> color01(vraw(s.0)) && s.1.orig == rec.p,
    ;
}

/// Diffuse material: scatters about the surface normal, attenuates by its
/// albedo regardless of angle.
#[derive(Clone, Copy, Debug)]
pub struct Lambertian {
    pub albedo: Vec3,
}

/// The diffuse scatter direction: the normal plus a unit sample, with the
/// normal itself as fallback when the sum is degenerate (near zero).
pub open spec fn lambertian_dir(n: (int, int, int), u: (int, int, int)) -> (int, int, int) {
    if tnear_zero(tadd(n, u)) {
        n
    } else {
        tadd(n, u)
    }
}

/// What a diffuse scatter returns: for an in-model normal, the albedo and a
/// ray from the hit point along `normal + u` for some unit sample `u` (or the
/// normal alone when degenerate); absorption only for an out-of-model normal.
pub open spec fn lambertian_outcome(l: Lambertian, rec: HitRecord, res: Option<(Vec3, Ray)>) -> bool {
    if bounded3(vraw(rec.normal), 0x1000_0000_0000_0000) {
        res is Some && res->Some_0.0 == l.albedo && res->Some_0.1.orig == rec.p && exists|
            u: (int, int, int),
        |
            unit_sample_spec(u) && bounded3(u, 0x100_0000) && vraw(res->Some_0.1.dir)
                == #[trigger] lambertian_dir(vraw(rec.normal), u)
    } else {
        res is None
    }
}

impl Lambertian {
    /// A diffuse material with the given base color.
    pub fn new(albedo: Vec3) -> (r: Lambertian)
        requires
            color01(vraw(albedo)),
        ensures
            r.albedo == albedo,
    {
        Lambertian { albedo }
    }

    /// The deterministic core of diffuse scattering, for a given unit sample:
    /// attenuate by the albedo and head along `normal + sample`, or along the
    /// normal alone if that sum is near zero.
    pub fn scatter_with(&self, rec: &HitRecord, unit_sample: Vec3) -> (res: (Vec3, Ray))
        requires
            bounded3(vraw(rec.normal), 0x1000_0000_0000_0000),
            bounded3(vraw(unit_sample), 0x1000_0000_0000_0000),
        ensures
            res.0 == self.albedo,
            res.1.orig == rec.p,
            vraw(res.1.dir) == lambertian_dir(vraw(rec.normal), vraw(unit_sample)),
    {
        let mut scatter_direction = rec.normal.add(unit_sample);
        if scatter_direction.near_zero() {
            scatter_direction = rec.normal;
        }
        (self.albedo, Ray::new(rec.p, scatter_direction))
    }
}

impl Material for Lambertian {
    open spec fn material_valid(&self) -> bool {
        color01(vraw(self.albedo))
    }

    fn scatter(&self, ray_in: &Ray, rec: &HitRecord) -> (res: Option<(Vec3, Ray)>)
        ensures
            lambertian_outcome(*self, *rec, res),
    {
        let u = Vec3::random_unit_vector();
        if rec.normal.in_box(0x1000_0000_0000_0000) {
            let s = self.scatter_with(rec, u);
            proof {
                assert(unit_sample_spec(vraw(u)) && bounded3(vraw(u), 0x100_0000) && vraw(s.1.dir)
                    == lambertian_dir(vraw(rec.normal), vraw(u)));
            }
            Some(s)
        } else {
            None
        }
    }
}

/// Specular material: mirror reflection, roughened by a fuzz factor in
/// `[0, 1]`, attenuated by its albedo.
#[derive(Clone, Copy, Debug)]
pub struct Metal {
    pub albedo: Vec3,
    pub fuzz: Fx,
}

/// The inputs to a specular scatter lie inside the model's ranges: a
/// direction that normalizes within 16 units, and a normal within 16 units.
pub open spec fn metal_inputs_ok(d: (int, int, int), n: (int, int, int)) -> bool {
    &&& bounded3(d, 0x4000_0000)
    &&& tlensq(d) >= 1
    &&& bounded3(tunit(d), 0x10_0000)
    &&& bounded3(n, 0x10_0000)
}

/// What a specular scatter returns for a given ball sample: absorption for
/// out-of-model inputs or a direction into the surface, otherwise the albedo
/// and the fuzzed reflection from the hit point.
pub open spec fn metal_outcome(
    m: Metal,
    ray_in: Ray,
    rec: HitRecord,
    sample: (int, int, int),
    res: Option<(Vec3, Ray)>,
) -> bool {
    let d = vraw(ray_in.dir);
    let n = vraw(rec.normal);
    if !metal_inputs_ok(d, n) {
        res is None
    } else {
        let sdir = metal_dir(d, n, sample, m.fuzz.raw as int);
        if tdot(sdir, n) > 0 {
            res is Some && res->Some_0.0 == m.albedo && res->Some_0.1.orig == rec.p && vraw(
                res->Some_0.1.dir,
            ) == sdir
        } else {
            res is None
        }
    }
}

/// The fuzzed specular direction: the reflection of the unit incoming
/// direction, displaced by `fuzz` times the ball sample.
pub open spec fn metal_dir(d: (int, int, int), n: (int, int, int), sample: (int, int, int), fuzz: int) -> (
    int,
    int,
    int,
) {
    tadd(treflect(tunit(d), n), tscale(sample, fuzz))
}

impl Metal {
    /// A specular material with the given base color and fuzz in `[0, 1]`.
    pub fn new(albedo: Vec3, fuzz: Fx) -> (r: Metal)
        requires
            color01(vraw(albedo)),
            0 <= fuzz.raw <= 65536,
        ensures
            r.albedo == albedo,
            r.fuzz == fuzz,
    {
        Metal { albedo, fuzz }
    }

    /// The deterministic core of specular scattering, for a given ball
    /// sample: reflect, fuzz, and absorb whenever the result does not point
    /// away from the surface (`scattered . normal <= 0`), or when an input
    /// leaves the model's ranges.
    pub fn scatter_with(&self, ray_in: &Ray, rec: &HitRecord, fuzz_sample: Vec3) -> (res: Option<
        (Vec3, Ray),
    >)
        requires
            0 <= self.fuzz.raw <= 65536,
            bounded3(vraw(fuzz_sample), 65536),
        ensures
            metal_outcome(*self, *ray_in, *rec, vraw(fuzz_sample), res),
    {
        if !ray_in.direction().in_box(0x4000_0000) {
            return None;
        }
        proof {
            lemma_dot_safe(vraw(ray_in.dir), vraw(ray_in.dir), 0x4000_0000, 0x4000_0000);
        }
        let lsq = ray_in.direction().length_squared();
        if lsq.raw < 1 {
            return None;
        }
        let unit = ray_in.direction().unit_vector();
        if !unit.in_box(0x10_0000) {
            return None;
        }
        if !rec.normal.in_box(0x10_0000) {
            return None;
        }
        let reflected = Vec3::reflect(unit, rec.normal);
        proof {
            lemma_scale_safe(vraw(fuzz_sample), self.fuzz.raw as int, 65536, 65536);
        }
        let fuzzed = fuzz_sample.scale(self.fuzz);
        let scattered_dir = reflected.add(fuzzed);
        proof {
            lemma_dot_safe(vraw(scattered_dir), vraw(rec.normal), 0x8001_0000, 0x10_0000);
        }
        let alignment = scattered_dir.dot(rec.normal);
        if alignment.raw > 0 {
            Some((self.albedo, Ray::new(rec.p, scattered_dir)))
        } else {
            None
        }
    }
}

impl Material for Metal {
    open spec fn material_valid(&self) -> bool {
        color01(vraw(self.albedo)) && 0 <= self.fuzz.raw <= 65536
    }

    fn scatter(&self, ray_in: &Ray, rec: &HitRecord) -> (res: Option<(Vec3, Ray)>)
        ensures
            exists|sample: (int, int, int)|
                bounded3(sample, 65536) && tlensq(sample) < 65536 && metal_outcome(
                    *self,
                    *ray_in,
                    *rec,
                    sample,
                    res,
                ),
    {
        let sample = Vec3::random_in_unit_sphere();
        let res = self.scatter_with(ray_in, rec, sample);
        proof {
            assert(bounded3(vraw(sample), 65536) && tlensq(vraw(sample)) < 65536 && metal_outcome(
                *self,
                *ray_in,
                *rec,
                vraw(sample),
                res,
            ));
        }
        res
    }
}

/// Refractive material (glass): reflects or refracts by Snell's law and the
/// Schlick reflectance, with no tint.
#[derive(Clone, Copy, Debug)]
pub struct Dielectric {
    pub ir: Fx,
}

/// The cosine of the incident angle: `(-unit) . n`, capped at one.
pub open spec fn dielectric_cos(unit: (int, int, int), n: (int, int, int)) -> int {
    min_i(tdot(tneg(unit), n), 65536)
}

/// Schlick's reflectance approximation:
/// `r0 + (1 - r0) (1 - cos)^5` with `r0 = ((1 - ratio) / (1 + ratio))^2`.
pub open spec fn schlick(cos: int, ratio: int) -> int {
    let r0x = fxdiv(65536 - ratio, 65536 + ratio);
    let r0 = fxmul(r0x, r0x);
    let omc = 65536 - cos;
    let p2 = fxmul(omc, omc);
    let p5 = fxmul(fxmul(p2, p2), omc);
    r0 + fxmul(65536 - r0, p5)
}

/// What a refractive scatter returns for a given uniform draw: absorption
/// only for out-of-model inputs, otherwise white attenuation and the
/// reflected-or-refracted direction from the hit point.
pub open spec fn dielectric_outcome(
    m: Dielectric,
    ray_in: Ray,
    rec: HitRecord,
    draw: int,
    res: Option<(Vec3, Ray)>,
) -> bool {
    let d = vraw(ray_in.dir);
    let n = vraw(rec.normal);
    let ratio = dielectric_ratio(rec.front_face, m.ir.raw as int);
    if !dielectric_inputs_ok(d, n) {
        res is None
    } else {
        res is Some && vraw(res->Some_0.0) == (65536int, 65536int, 65536int) && res->Some_0.1.orig
            == rec.p && vraw(res->Some_0.1.dir) == dielectric_dir(d, n, ratio, draw)
    }
}

/// The inputs to a refractive scatter lie inside the model's ranges.
pub open spec fn dielectric_inputs_ok(d: (int, int, int), n: (int, int, int)) -> bool {
    &&& bounded3(d, 0x4000_0000)
    &&& tlensq(d) >= 1
    &&& bounded3(tunit(d), 0x10_0000)
    &&& bounded3(n, 0x10_0000)
    &&& -131072 <= dielectric_cos(tunit(d), n)
}

/// The refractive-index ratio seen by the ray: `1 / ir` entering from the
/// front, `ir` leaving through the back.
pub open spec fn dielectric_ratio(front_face: bool, ir: int) -> int {
    if front_face {
        fxdiv(65536, ir)
    } else {
        ir
    }
}

/// The refracted-or-reflected direction: total internal reflection and the
/// Schlick draw choose reflection, otherwise Snell refraction.
pub open spec fn dielectric_dir(
    d: (int, int, int),
    n: (int, int, int),
    ratio: int,
    draw: int,
) -> (int, int, int) {
    let unit = tunit(d);
    let cos = dielectric_cos(unit, n);
    let sin = fxsqrt(max_i(65536 - fxmul(cos, cos), 0));
    if fxmul(ratio, sin) > 65536 || schlick(cos, ratio) > draw {
        treflect(unit, n)
    } else {
        trefract(unit, n, ratio)
    }
}

impl Dielectric {
    /// A refractive material with the given index of refraction, within the
    /// model range `[1/16, 16]`.
    pub fn new(ir: Fx) -> (r: Dielectric)
        requires
            0x1000 <= ir.raw <= 0x10_0000,
        ensures
            r.ir == ir,
    {
        Dielectric { ir }
    }

    /// Schlick's reflectance for a capped cosine and a ratio in the model
    /// range.
    fn reflectance(cos: Fx, ratio: Fx) -> (r: Fx)
        requires
            -131072 <= cos.raw <= 65536,
            1 <= ratio.raw <= 0x10_0000,
        ensures
            r.raw == schlick(cos.raw as int, ratio.raw as int),
    {
        let one = Fx::from_raw(65536);
        let num = one.sub(ratio);
        let den = one.add(ratio);
        proof {
            lemma_fxdiv_lt_one(num.raw as int, den.raw as int);
        }
        let r0x = num.div(den);
        proof {
            lemma_mul_bounds(r0x.raw as int, r0x.raw as int, 65535, 65535);
            lemma_fxmul_bound(r0x.raw as int, r0x.raw as int, 65535, 65535);
            lemma_fxsquare_nonneg(r0x.raw as int);
        }
        let r0 = r0x.mul(r0x);
        let omc = one.sub(cos);
        proof {
            lemma_mul_bounds(omc.raw as int, omc.raw as int, 0x3_0000, 0x3_0000);
            lemma_fxmul_bound(omc.raw as int, omc.raw as int, 0x3_0000, 0x3_0000);
        }
        let p2 = omc.mul(omc);
        proof {
            lemma_mul_bounds(p2.raw as int, p2.raw as int, 0x9_0000, 0x9_0000);
            lemma_fxmul_bound(p2.raw as int, p2.raw as int, 0x9_0000, 0x9_0000);
        }
        let p4 = p2.mul(p2);
        proof {
            lemma_mul_bounds(p4.raw as int, omc.raw as int, 0x51_0000, 0x3_0000);
            lemma_fxmul_bound(p4.raw as int, omc.raw as int, 0x51_0000, 0x3_0000);
        }
        let p5 = p4.mul(omc);
        let one_minus_r0 = one.sub(r0);
        proof {
            lemma_mul_bounds(one_minus_r0.raw as int, p5.raw as int, 0x2_0000, 0xf3_0000);
            lemma_fxmul_bound(one_minus_r0.raw as int, p5.raw as int, 0x2_0000, 0xf3_0000);
        }
        r0.add(one_minus_r0.mul(p5))
    }

    /// The deterministic core of refractive scattering, for a given uniform
    /// draw in `[0, 1)`: attenuate by white and reflect or refract; absorb
    /// only when an input leaves the model's ranges.
    pub fn scatter_with(&self, ray_in: &Ray, rec: &HitRecord, reflect_draw: Fx) -> (res: Option<
        (Vec3, Ray),
    >)
        requires
            0x1000 <= self.ir.raw <= 0x10_0000,
            0 <= reflect_draw.raw < 65536,
        ensures
            dielectric_outcome(*self, *ray_in, *rec, reflect_draw.raw as int, res),
    {
        let one = Fx::from_raw(65536);
        proof {
            lemma_fxdiv_bound(65536, self.ir.raw as int, 65536, 0x1000);
            lemma_div_is_ordered_by_denominator(0x1_0000_0000, self.ir.raw as int, 0x10_0000);
        }
        let ratio = if rec.front_face {
            one.div(self.ir)
        } else {
            self.ir
        };
        if !ray_in.direction().in_box(0x4000_0000) {
            return None;
        }
        proof {
            lemma_dot_safe(vraw(ray_in.dir), vraw(ray_in.dir), 0x4000_0000, 0x4000_0000);
        }
        let lsq = ray_in.direction().length_squared();
        if lsq.raw < 1 {
            return None;
        }
        let unit = ray_in.direction().unit_vector();
        if !unit.in_box(0x10_0000) {
            return None;
        }
        if !rec.normal.in_box(0x10_0000) {
            return None;
        }
        let vn = unit.neg();
        proof {
            lemma_dot_safe(vraw(vn), vraw(rec.normal), 0x10_0000, 0x10_0000);
        }
        let cos_full = vn.dot(rec.normal);
        let cos = if cos_full.raw < 65536 {
            cos_full
        } else {
            one
        };
        if cos.raw < -131072 {
            return None;
        }
        proof {
            lemma_mul_bounds(cos.raw as int, cos.raw as int, 0x2_0000, 0x2_0000);
            lemma_fxmul_bound(cos.raw as int, cos.raw as int, 0x2_0000, 0x2_0000);
            lemma_fxsquare_nonneg(cos.raw as int);
        }
        let cos2 = cos.mul(cos);
        let sin2_raw = one.sub(cos2);
        let sin2 = if sin2_raw.raw > 0 {
            sin2_raw
        } else {
            Fx::from_raw(0)
        };
        let sin = sin2.sqrt();
        proof {
            assert(sin.raw <= 65536) by (nonlinear_arith)
                requires
                    sin.raw >= 0,
                    is_sqrt(sin2.raw * 65536, sin.raw as int),
                    0 <= sin2.raw <= 65536,
            ;
            lemma_mul_bounds(ratio.raw as int, sin.raw as int, 0x10_0000, 65536);
        }
        let rs = ratio.mul(sin);
        let cannot_refract = rs.raw > 65536;
        let refl = Dielectric::reflectance(cos, ratio);
        let direction = if cannot_refract || refl.raw > reflect_draw.raw {
            Vec3::reflect(unit, rec.normal)
        } else {
            Vec3::refract(unit, rec.normal, ratio)
        };
        Some((Vec3::new(one, one, one), Ray::new(rec.p, direction)))
    }
}

impl Material for Dielectric {
    open spec fn material_valid(&self) -> bool {
        0x1000 <= self.ir.raw <= 0x10_0000
    }

    fn scatter(&self, ray_in: &Ray, rec: &HitRecord) -> (res: Option<(Vec3, Ray)>)
        ensures
            exists|draw: int|
                0 <= draw < 65536 && dielectric_outcome(*self, *ray_in, *rec, draw, res),
    {
        let draw = random_unit();
        let res = self.scatter_with(ray_in, rec, draw);
        proof {
            assert(0 <= draw.raw < 65536 && dielectric_outcome(
                *self,
                *ray_in,
                *rec,
                draw.raw as int,
                res,
            ));
        }
        res
    }
}

/// What any material's scatter can return: some admissible outcome of the
/// stored variant, quantified over the random draw the variant consumes.
pub open spec fn scatter_outcome(
    m: SurfaceMaterial,
    ray_in: Ray,
    rec: HitRecord,
    res: Option<(Vec3, Ray)>,
) -> bool {
    match m {
        SurfaceMaterial::Lambertian(l) => lambertian_outcome(l, rec, res),
        SurfaceMaterial::Metal(me) => exists|sample: (int, int, int)|
            bounded3(sample, 65536) && tlensq(sample) < 65536 && #[trigger] metal_outcome(
                me,
                ray_in,
                rec,
                sample,
                res,
            ),
        SurfaceMaterial::Dielectric(d) => exists|draw: int|
            0 <= draw < 65536 && #[trigger] dielectric_outcome(d, ray_in, rec, draw, res),
    }
}

/// One of the material variants, as stored by scene objects and hit records.
#[derive(Clone, Copy, Debug)]
pub enum SurfaceMaterial {
    Lambertian(Lambertian),
    Metal(Metal),
    Dielectric(Dielectric),
}

/// The material's configuration lies inside the model's ranges.
pub open spec fn material_wf(m: SurfaceMaterial) -> bool {
    match m {
        SurfaceMaterial::Lambertian(l) => l.material_valid(),
        SurfaceMaterial::Metal(me) => me.material_valid(),
        SurfaceMaterial::Dielectric(d) => d.material_valid(),
    }
}

impl Material for SurfaceMaterial {
    open spec fn material_valid(&self) -> bool {
        material_wf(*self)
    }

    fn scatter(&self, ray_in: &Ray, rec: &HitRecord) -> (res: Option<(Vec3, Ray)>)
        ensures
            scatter_outcome(*self, *ray_in, *rec, res),
    {
        match self {
            SurfaceMaterial::Lambertian(l) => l.scatter(ray_in, rec),
            SurfaceMaterial::Metal(m) => m.scatter(ray_in, rec),
            SurfaceMaterial::Dielectric(d) => d.scatter(ray_in, rec),
        }
    }
}

/// Specular absorption, spelled out: whenever a fuzzed reflection does not
/// point away from the surface (`scattered . normal <= 0`), the ray is
/// absorbed; and a reported scatter always points away.
pub proof fn lemma_metal_scatter_absorbs(
    m: Metal,
    ray_in: Ray,
    rec: HitRecord,
    sample: (int, int, int),
    res: Option<(Vec3, Ray)>,
)
    requires
        metal_outcome(m, ray_in, rec, sample, res),
    ensures
        res is Some ==> metal_inputs_ok(vraw(ray_in.dir), vraw(rec.normal)) && tdot(
            metal_dir(vraw(ray_in.dir), vraw(rec.normal), sample, m.fuzz.raw as int),
            vraw(rec.normal),
        ) > 0,
        metal_inputs_ok(vraw(ray_in.dir), vraw(rec.normal)) && tdot(
            metal_dir(vraw(ray_in.dir), vraw(rec.normal), sample, m.fuzz.raw as int),
            vraw(rec.normal),
        ) <= 0 ==> res is None,
{
}

} // verus!
