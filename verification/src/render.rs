//! The integrator and the sampler: recursive Monte Carlo radiance estimation,
//! per-pixel sample accumulation, and the top-to-bottom output ordering.
//!
//! Units of work are independent: a row's sums depend only on its own pixels'
//! samples, and accumulation is exact integer addition, so any grouping or
//! interleaving of workers yields identical pixel sums (see the `vsum`
//! lemmas).

use crate::camera::{camera_wf, get_ray_spec, Camera};
use crate::color::{write_color_spec, Rgb};
use crate::hittable::{ray_wf, HitRecord, Hittable, HittableList};
use crate::material::{scatter_outcome, Material};
use crate::ray::Ray;
use crate::scalar::{abs_i, lemma_fxmul_bound, lemma_mul_bounds, Fx};
use crate::vec3::{
    bounded3, lemma_dot_safe, lemma_mul3_safe, lemma_scale_safe, tadd, tlensq, tmul3, tscale,
    tunit, vraw, Vec3,
};
use vstd::arithmetic::div_mod::{lemma_div_by_multiple, lemma_div_is_ordered};
use vstd::prelude::*;
use vstd::seq_lib::group_to_multiset_ensures;

verus! {

/// Every channel is a physically meaningful radiance value: nonnegative and
/// at most one unit, so light is never negative and never amplified.
pub open spec fn radiance_in_range(c: (int, int, int)) -> bool {
    &&& 0 <= c.0 <= 65536
    &&& 0 <= c.1 <= 65536
    &&& 0 <= c.2 <= 65536
}

/// `c` is an admissible radiance estimate for `ray` at the given depth: in
/// range, exactly black at depth zero or for an out-of-model ray, exactly the
/// sky gradient on a miss, and on a hit the product of an admissible scatter
/// outcome's attenuation with an admissible depth-one-less estimate for the
/// scattered ray.
pub open spec fn ray_color_outcome(
    world: HittableList,
    ray: Ray,
    depth: int,
    c: (int, int, int),
) -> bool
    decreases depth, 1int,
{
    &&& radiance_in_range(c)
    &&& depth <= 0 ==> c == (0int, 0int, 0int)
    &&& depth > 0 && !ray_wf(ray) ==> c == (0int, 0int, 0int)
    &&& depth > 0 && ray_wf(ray) && world.spec_hit(ray, 65, crate::INFINITY as int) is None ==> c
        == sky_color_spec(vraw(ray.dir))
    &&& depth > 0 && ray_wf(ray) && world.spec_hit(ray, 65, crate::INFINITY as int) is Some
        ==> hit_branch_spec(
        world,
        world.spec_hit(ray, 65, crate::INFINITY as int)->Some_0,
        ray,
        depth,
        c,
    )
}

/// On a hit, some admissible scatter outcome of the hit record's material was
/// taken: absorption yields exactly black, and a scatter yields the outcome's
/// attenuation multiplied componentwise into an admissible depth-one-less
/// estimate for the scattered ray.
pub open spec fn hit_branch_spec(
    world: HittableList,
    rec: HitRecord,
    r: Ray,
    depth: int,
    res: (int, int, int),
) -> bool
    decreases depth, 0int,
{
    exists|sc: Option<(Vec3, Ray)>|
        #[trigger] scatter_outcome(rec.material, r, rec, sc) && if sc is None {
            res == (0int, 0int, 0int)
        } else {
            depth > 0 && exists|c: (int, int, int)|
                ray_color_outcome(world, sc->Some_0.1, depth - 1, c) && res == #[trigger] tmul3(
                    vraw(sc->Some_0.0),
                    c,
                )
        }
}

/// The sky gradient for a miss: linear blend from white to sky blue by the
/// unit direction's height, black for directions outside the model's range.
pub open spec fn sky_color_spec(d: (int, int, int)) -> (int, int, int) {
    let u = tunit(d);
    if !bounded3(u, 0x2_0000) {
        (0int, 0int, 0int)
    } else {
        let t = crate::clamp_i(crate::scalar::fxmul(32768, u.1 + 65536), 0, 65536);
        tadd(
            tscale((65536int, 65536int, 65536int), 65536 - t),
            tscale((32768int, 45875int, 65536int), t),
        )
    }
}

/// The recursive Monte Carlo radiance estimate for one ray.
///
/// Intersections nearer than 65 raw units (about 0.001) are ignored, so a
/// bounce cannot re-hit its own surface. Exactly black at depth zero (the
/// energy cutoff), and exactly the sky
/// gradient on a miss; after a hit the material scatters and the estimate
/// recurses, so the value depends on the random draws, but the scatter was
/// an admissible outcome of the hit material and every channel always stays
/// nonnegative and within one unit. Rays outside the model's ranges gather
/// nothing.
pub fn ray_color(r: &Ray, world: &HittableList, depth: u64) -> (res: Vec3)
    requires
        world.hittable_wf(),
    ensures
        radiance_in_range(vraw(res)),
        depth == 0 ==> vraw(res) == (0int, 0int, 0int),
        ray_color_outcome(*world, *r, depth as int, vraw(res)),
    decreases depth,
{
    let black = Vec3::new(Fx::from_raw(0), Fx::from_raw(0), Fx::from_raw(0));
    if depth == 0 {
        return black;
    }
    if !r.direction().in_box(0x100_0000) {
        return black;
    }
    if !r.origin().in_box(0x1000_0000) {
        return black;
    }
    proof {
        lemma_dot_safe(vraw(r.dir), vraw(r.dir), 0x100_0000, 0x100_0000);
    }
    if r.direction().length_squared().raw < 1 {
        return black;
    }
    match world.hit(r, Fx::from_raw(65), Fx::from_raw(crate::INFINITY)) {
        Some(rec) => {
            let scatter_res = rec.material.scatter(r, &rec);
            match scatter_res {
                Some((attenuation, scattered)) => {
                    let recursed = ray_color(&scattered, world, depth - 1);
                    proof {
                        lemma_mul3_safe(vraw(attenuation), vraw(recursed), 65536, 65536);
                        let a = vraw(attenuation);
                        let c = vraw(recursed);
                        crate::scalar::lemma_fxmul_nonneg(a.0, c.0);
                        crate::scalar::lemma_fxmul_nonneg(a.1, c.1);
                        crate::scalar::lemma_fxmul_nonneg(a.2, c.2);
                        assert(abs_i(a.0 * c.0) <= c.0 * 65536) by (nonlinear_arith)
                            requires
                                0 <= a.0 <= 65536,
                                0 <= c.0,
                        ;
                        assert(abs_i(a.1 * c.1) <= c.1 * 65536) by (nonlinear_arith)
                            requires
                                0 <= a.1 <= 65536,
                                0 <= c.1,
                        ;
                        assert(abs_i(a.2 * c.2) <= c.2 * 65536) by (nonlinear_arith)
                            requires
                                0 <= a.2 <= 65536,
                                0 <= c.2,
                        ;
                        crate::scalar::lemma_fxmul_fits(a.0, c.0, c.0);
                        crate::scalar::lemma_fxmul_fits(a.1, c.1, c.1);
                        crate::scalar::lemma_fxmul_fits(a.2, c.2, c.2);
                    }
                    let out = attenuation.comp_mul(recursed);
                    proof {
                        assert(ray_color_outcome(*world, scattered, depth as int - 1, vraw(
                            recursed,
                        )) && vraw(out) == tmul3(vraw(scatter_res->Some_0.0), vraw(recursed)));
                        assert(hit_branch_spec(*world, rec, *r, depth as int, vraw(out)));
                    }
                    out
                },
                None => {
                    proof {
                        assert(hit_branch_spec(*world, rec, *r, depth as int, (0int, 0int, 0int)));
                    }
                    black
                },
            }
        },
        None => {
            let unit_direction = r.direction().unit_vector();
            if !unit_direction.in_box(0x2_0000) {
                return black;
            }
            let yy = unit_direction.y().add(Fx::from_raw(65536));
            proof {
                lemma_mul_bounds(32768, yy.raw as int, 32768, 0x3_0000);
                lemma_fxmul_bound(32768, yy.raw as int, 32768, 0x3_0000);
            }
            let t_raw = Fx::from_raw(32768).mul(yy);
            let t = crate::clamp(t_raw, Fx::from_raw(0), Fx::from_raw(65536));
            let one_minus = Fx::from_raw(65536).sub(t);
            let white = Vec3::new(Fx::from_raw(65536), Fx::from_raw(65536), Fx::from_raw(65536));
            let sky_blue = Vec3::new(Fx::from_raw(32768), Fx::from_raw(45875), Fx::from_raw(65536));
            proof {
                lemma_scale_safe(vraw(white), one_minus.raw as int, 65536, 0x1_0000);
                lemma_scale_safe(vraw(sky_blue), t.raw as int, 65536, 0x1_0000);
                let tv = t.raw as int;
                crate::scalar::lemma_fxmul_exact(65536, one_minus.raw as int, one_minus.raw as int);
                lemma_sky_channel_range(32768, tv);
                lemma_sky_channel_range(45875, tv);
                lemma_sky_channel_range(65536, tv);
            }
            white.scale(one_minus).add(sky_blue.scale(t))
        },
    }
}

/// One blended sky channel stays within `[0, 1]`: for a blend parameter in
/// `[0, 1]` and a channel value in `[0, 1]`, the white share `1 - t` plus the
/// sky share `sb * t` is nonnegative and never exceeds one.
pub proof fn lemma_sky_channel_range(sb: int, t: int)
    requires
        0 <= sb <= 65536,
        0 <= t <= 65536,
    ensures
        0 <= 65536 - t + crate::scalar::fxmul(sb, t) <= 65536,
{
    crate::scalar::lemma_fxmul_nonneg(sb, t);
    assert(abs_i(sb * t) <= t * 65536) by (nonlinear_arith)
        requires
            0 <= sb <= 65536,
            0 <= t,
    ;
    crate::scalar::lemma_fxmul_fits(sb, t, t);
}

/// `s` is an admissible jittered normalized coordinate for index `i` out of
/// `extent`: `(i + jitter) / (extent - 1)` for some uniform jitter in
/// `[0, 1)`.
pub open spec fn pixel_coord_spec(i: int, extent: int, s: int) -> bool {
    exists|jit: int|
        0 <= jit < 65536 && s == #[trigger] crate::scalar::fxdiv(
            i * 65536 + jit,
            (extent - 1) * 65536,
        )
}

/// The jittered normalized coordinate of index `i` out of `extent`:
/// `(i + random) / (extent - 1)` for a uniform jitter in `[0, 1)`, always
/// within `[0, 2]`.
pub fn pixel_coord(i: usize, extent: usize) -> (res: Fx)
    requires
        2 <= extent <= 0x10000,
        i < extent,
    ensures
        0 <= res.raw <= 0x2_0000,
        pixel_coord_spec(i as int, extent as int, res.raw as int),
{
    let base = Fx::from_int(i as i64);
    let jitter = crate::random_double(Fx::from_raw(0), Fx::from_raw(65536));
    let num = base.add(jitter);
    let den = Fx::from_int((extent - 1) as i64);
    proof {
        let numv = num.raw as int;
        let denv = den.raw as int;
        assert(numv < extent * 65536) by (nonlinear_arith)
            requires
                numv <= (extent - 1) * 65536 + 65535,
                extent >= 2,
        ;
        assert(numv * 65536 >= 0) by (nonlinear_arith)
            requires
                numv >= 0,
        ;
        assert(numv * 65536 <= denv * 0x2_0000) by (nonlinear_arith)
            requires
                numv < extent * 65536,
                denv == (extent - 1) * 65536,
                extent >= 2,
        ;
        lemma_div_is_ordered(numv * 65536, denv * 0x2_0000, denv);
        assert(denv * 0x2_0000 == 0x2_0000 * denv) by (nonlinear_arith);
        lemma_div_by_multiple(0x2_0000, denv);
        assert(numv * 65536 / denv >= 0) by (nonlinear_arith)
            requires
                numv * 65536 >= 0,
                denv >= 1,
        ;
    }
    num.div(den)
}

/// `ray` is an admissible camera ray for pixel `(i, j)`: the ray for some
/// admissible jittered viewport coordinates of that pixel and some lens-disk
/// sample.
pub open spec fn camera_ray_spec(
    cam: Camera,
    i: int,
    j: int,
    image_width: int,
    image_height: int,
    ray: Ray,
) -> bool {
    exists|s: int, t: int, d: (int, int, int)|
        {
            &&& pixel_coord_spec(i, image_width, s)
            &&& pixel_coord_spec(j, image_height, t)
            &&& bounded3(d, 65536)
            &&& tlensq(d) < 65536
            &&& d.2 == 0
            &&& vraw(ray.orig) == (#[trigger] get_ray_spec(cam, s, t, d)).0
            &&& vraw(ray.dir) == get_ray_spec(cam, s, t, d).1
        }
}

/// `c` is an admissible radiance sample for pixel `(i, j)`: the integrator's
/// outcome at the given depth for some admissible camera ray of that pixel.
pub open spec fn pixel_sample_spec(
    world: HittableList,
    cam: Camera,
    i: int,
    j: int,
    image_width: int,
    image_height: int,
    depth: int,
    c: (int, int, int),
) -> bool {
    exists|ray: Ray|
        #[trigger] camera_ray_spec(cam, i, j, image_width, image_height, ray)
            && ray_color_outcome(world, ray, depth, c)
}

/// `res` is an admissible accumulated sum for pixel `(i, j)`: the exact sum
/// of `samples_per_pixel` admissible radiance samples of that pixel.
pub open spec fn pixel_sum_spec(
    world: HittableList,
    cam: Camera,
    i: int,
    j: int,
    image_width: int,
    image_height: int,
    samples_per_pixel: int,
    depth: int,
    res: (int, int, int),
) -> bool {
    exists|samples: Seq<(int, int, int)>|
        {
            &&& samples.len() == samples_per_pixel
            &&& (forall|k: int|
                0 <= k < samples.len() ==> pixel_sample_spec(
                    world,
                    cam,
                    i,
                    j,
                    image_width,
                    image_height,
                    depth,
                    #[trigger] samples[k],
                ))
            &&& res == #[trigger] vsum(samples)
        }
}

/// The accumulated radiance of one pixel: the sum of `samples_per_pixel`
/// independent jittered camera samples, each within `[0, 1]` per channel, so
/// the sum is bounded by one unit per sample.
pub fn render_pixel(
    world: &HittableList,
    cam: &Camera,
    i: usize,
    j: usize,
    image_width: usize,
    image_height: usize,
    samples_per_pixel: u32,
    max_depth: u64,
) -> (res: Vec3)
    requires
        world.hittable_wf(),
        camera_wf(*cam),
        2 <= image_width <= 0x10000,
        2 <= image_height <= 0x10000,
        i < image_width,
        j < image_height,
        samples_per_pixel <= 0x10_0000,
    ensures
        bounded3(vraw(res), samples_per_pixel * 65536),
        vraw(res).0 >= 0 && vraw(res).1 >= 0 && vraw(res).2 >= 0,
        samples_per_pixel == 0 ==> vraw(res) == (0int, 0int, 0int),
        pixel_sum_spec(
            *world,
            *cam,
            i as int,
            j as int,
            image_width as int,
            image_height as int,
            samples_per_pixel as int,
            max_depth as int,
            vraw(res),
        ),
{
    let mut acc = Vec3::new(Fx::from_raw(0), Fx::from_raw(0), Fx::from_raw(0));
    let mut s: u32 = 0;
    let ghost mut samples: Seq<(int, int, int)> = Seq::empty();
    while s < samples_per_pixel
        invariant
            world.hittable_wf(),
            camera_wf(*cam),
            2 <= image_width <= 0x10000,
            2 <= image_height <= 0x10000,
            i < image_width,
            j < image_height,
            samples_per_pixel <= 0x10_0000,
            s <= samples_per_pixel,
            bounded3(vraw(acc), s * 65536),
            vraw(acc).0 >= 0 && vraw(acc).1 >= 0 && vraw(acc).2 >= 0,
            samples.len() == s,
            forall|k: int|
                0 <= k < samples.len() ==> pixel_sample_spec(
                    *world,
                    *cam,
                    i as int,
                    j as int,
                    image_width as int,
                    image_height as int,
                    max_depth as int,
                    #[trigger] samples[k],
                ),
            vraw(acc) == vsum(samples),
        decreases samples_per_pixel - s,
    {
        let u = pixel_coord(i, image_width);
        let v = pixel_coord(j, image_height);
        let ray = cam.get_ray(u, v);
        let color = ray_color(&ray, world, max_depth);
        proof {
            let d0 = choose|d: (int, int, int)|
                {
                    &&& bounded3(d, 65536)
                    &&& tlensq(d) < 65536
                    &&& d.2 == 0
                    &&& vraw(ray.orig) == get_ray_spec(*cam, u.raw as int, v.raw as int, d).0
                    &&& vraw(ray.dir) == get_ray_spec(*cam, u.raw as int, v.raw as int, d).1
                };
            assert(pixel_coord_spec(i as int, image_width as int, u.raw as int)
                && pixel_coord_spec(j as int, image_height as int, v.raw as int) && bounded3(
                d0,
                65536,
            ) && tlensq(d0) < 65536 && d0.2 == 0 && vraw(ray.orig) == get_ray_spec(
                *cam,
                u.raw as int,
                v.raw as int,
                d0,
            ).0 && vraw(ray.dir) == get_ray_spec(*cam, u.raw as int, v.raw as int, d0).1);
            assert(camera_ray_spec(
                *cam,
                i as int,
                j as int,
                image_width as int,
                image_height as int,
                ray,
            ) && ray_color_outcome(*world, ray, max_depth as int, vraw(color)));
            assert(pixel_sample_spec(
                *world,
                *cam,
                i as int,
                j as int,
                image_width as int,
                image_height as int,
                max_depth as int,
                vraw(color),
            ));
        }
        acc = acc.add(color);
        proof {
            assert(samples.push(vraw(color)).drop_last() =~= samples);
            assert(samples.push(vraw(color)).last() == vraw(color));
            samples = samples.push(vraw(color));
        }
        s = s + 1;
    }
    proof {
        assert(vraw(acc) == vsum(samples) && samples.len() == samples_per_pixel as int);
    }
    acc
}

/// One row of accumulated pixel sums, left to right: an independent unit of
/// work whose result depends only on its own pixels' samples.
pub fn render_row(
    world: &HittableList,
    cam: &Camera,
    j: usize,
    image_width: usize,
    image_height: usize,
    samples_per_pixel: u32,
    max_depth: u64,
) -> (res: Vec<Vec3>)
    requires
        world.hittable_wf(),
        camera_wf(*cam),
        2 <= image_width <= 0x10000,
        2 <= image_height <= 0x10000,
        j < image_height,
        samples_per_pixel <= 0x10_0000,
    ensures
        res@.len() == image_width,
        forall|k: int|
            0 <= k < res@.len() ==> bounded3(
                vraw(#[trigger] res@[k]),
                samples_per_pixel * 65536,
            ),
        forall|k: int|
            0 <= k < res@.len() ==> pixel_sum_spec(
                *world,
                *cam,
                k,
                j as int,
                image_width as int,
                image_height as int,
                samples_per_pixel as int,
                max_depth as int,
                vraw(#[trigger] res@[k]),
            ),
{
    let mut row: Vec<Vec3> = Vec::new();
    let mut i: usize = 0;
    while i < image_width
        invariant
            world.hittable_wf(),
            camera_wf(*cam),
            2 <= image_width <= 0x10000,
            2 <= image_height <= 0x10000,
            j < image_height,
            samples_per_pixel <= 0x10_0000,
            i <= image_width,
            row@.len() == i,
            forall|k: int|
                0 <= k < row@.len() ==> bounded3(
                    vraw(#[trigger] row@[k]),
                    samples_per_pixel * 65536,
                ),
            forall|k: int|
                0 <= k < row@.len() ==> pixel_sum_spec(
                    *world,
                    *cam,
                    k,
                    j as int,
                    image_width as int,
                    image_height as int,
                    samples_per_pixel as int,
                    max_depth as int,
                    vraw(#[trigger] row@[k]),
                ),
        decreases image_width - i,
    {
        let c = render_pixel(world, cam, i, j, image_width, image_height, samples_per_pixel,
            max_depth);
        row.push(c);
        i = i + 1;
    }
    row
}

/// The sum of a sequence of sample colors, one addition at a time.
pub open spec fn vsum(s: Seq<(int, int, int)>) -> (int, int, int)
    decreases s.len(),
{
    if s.len() == 0 {
        (0int, 0int, 0int)
    } else {
        tadd(vsum(s.drop_last()), s.last())
    }
}

/// Accumulation splits over concatenation: two workers' partial sums add up
/// to the sequential sum of the combined sample stream.
pub proof fn lemma_vsum_concat(s1: Seq<(int, int, int)>, s2: Seq<(int, int, int)>)
    ensures
        vsum(s1 + s2) == tadd(vsum(s1), vsum(s2)),
    decreases s2.len(),
{
    if s2.len() == 0 {
        assert(s1 + s2 =~= s1);
    } else {
        lemma_vsum_concat(s1, s2.drop_last());
        assert((s1 + s2).drop_last() =~= s1 + s2.drop_last());
        assert((s1 + s2).last() == s2.last());
    }
}

/// Removing one sample takes exactly its contribution out of the sum.
pub proof fn lemma_vsum_remove(s: Seq<(int, int, int)>, i: int)
    requires
        0 <= i < s.len(),
    ensures
        vsum(s) == tadd(vsum(s.remove(i)), s[i]),
    decreases s.len(),
{
    if i == s.len() - 1 {
        assert(s.remove(i) =~= s.drop_last());
    } else {
        lemma_vsum_remove(s.drop_last(), i);
        assert(s.remove(i).drop_last() =~= s.drop_last().remove(i));
        assert(s.remove(i).last() == s.last());
        assert(s.drop_last()[i] == s[i]);
    }
}

/// Accumulation is order-independent: two sample streams with the same
/// samples (as a multiset) have exactly the same sum, so the final pixel sums
/// do not depend on how workers interleave or group the samples.
pub proof fn lemma_vsum_permutation(s1: Seq<(int, int, int)>, s2: Seq<(int, int, int)>)
    requires
        s1.to_multiset() == s2.to_multiset(),
    ensures
        vsum(s1) == vsum(s2),
    decreases s1.len(),
{
    broadcast use group_to_multiset_ensures;

    if s1.len() == 0 {
        assert(s2.to_multiset().len() == 0);
        assert(s2.len() == 0);
    } else {
        let x = s1.last();
        assert(s1.to_multiset().count(x) > 0) by {
            assert(s1.contains(x));
        }
        assert(s2.contains(x));
        let j = choose|j: int| 0 <= j < s2.len() && s2[j] == x;
        assert(s1.drop_last() =~= s1.remove(s1.len() - 1));
        assert(s1.remove(s1.len() - 1).to_multiset() =~= s1.to_multiset().remove(x));
        assert(s2.remove(j).to_multiset() =~= s2.to_multiset().remove(x));
        lemma_vsum_remove(s2, j);
        lemma_vsum_permutation(s1.drop_last(), s2.remove(j));
    }
}

/// The raw component triples of a sequence of colors.
pub open spec fn colors_raw(s: Seq<Vec3>) -> Seq<(int, int, int)> {
    s.map_values(|c: Vec3| vraw(c))
}

/// The exact sum of a batch of sample colors: the executable counterpart of
/// `vsum`, so partial sums computed by any worker can be compared against it.
pub fn accumulate_samples(samples: &Vec<Vec3>) -> (res: Vec3)
    requires
        samples@.len() <= 0x10000,
        forall|k: int|
            0 <= k < samples@.len() ==> bounded3(
                vraw(#[trigger] samples@[k]),
                0x4000_0000_0000,
            ),
    ensures
        vraw(res) == vsum(colors_raw(samples@)),
{
    let mut acc = Vec3::new(Fx::from_raw(0), Fx::from_raw(0), Fx::from_raw(0));
    let mut i: usize = 0;
    proof {
        assert(colors_raw(samples@.subrange(0, 0)) =~= Seq::<(int, int, int)>::empty());
    }
    while i < samples.len()
        invariant
            samples@.len() <= 0x10000,
            forall|k: int|
                0 <= k < samples@.len() ==> bounded3(
                    vraw(#[trigger] samples@[k]),
                    0x4000_0000_0000,
                ),
            i <= samples@.len(),
            vraw(acc) == vsum(colors_raw(samples@.subrange(0, i as int))),
            bounded3(vraw(acc), i * 0x4000_0000_0000),
        decreases samples@.len() - i,
    {
        let c = samples[i];
        proof {
            assert(colors_raw(samples@.subrange(0, i + 1)).drop_last() =~= colors_raw(
                samples@.subrange(0, i as int),
            ));
            assert(colors_raw(samples@.subrange(0, i + 1)).last() == vraw(samples@[i as int]));
        }
        acc = acc.add(c);
        i = i + 1;
    }
    proof {
        assert(samples@.subrange(0, samples@.len() as int) =~= samples@);
    }
    acc
}

/// The finalized image in output order: rows from top (highest index) to
/// bottom, pixels left to right, each pixel averaged, gamma-corrected,
/// clamped and quantized.
pub fn buffer_to_pixels(buffer: &Vec<Vec<Vec3>>, samples_per_pixel: u64) -> (res: Vec<Rgb>)
    requires
        1 <= samples_per_pixel <= 0x10_0000,
        buffer@.len() <= 0x10000,
        forall|j: int| 0 <= j < buffer@.len() ==> (#[trigger] buffer@[j])@.len() <= 0x10000,
        forall|j: int, i: int|
            0 <= j < buffer@.len() && 0 <= i < buffer@[j]@.len() ==> bounded3(
                vraw(#[trigger] buffer@[j]@[i]),
                0x4000_0000_0000,
            ),
    ensures
        res@.len() == total_pixels(buffer@),
        forall|j: int, i: int|
            0 <= j < buffer@.len() && 0 <= i < buffer@[j]@.len() ==> #[trigger] res@[offset_of(
                buffer@,
                j,
                i,
            )] == rgb_spec(vraw(buffer@[j]@[i]), samples_per_pixel as int),
{
    let mut res: Vec<Rgb> = Vec::new();
    let mut jj: usize = buffer.len();
    while jj > 0
        invariant
            1 <= samples_per_pixel <= 0x10_0000,
            buffer@.len() <= 0x10000,
            forall|j: int| 0 <= j < buffer@.len() ==> (#[trigger] buffer@[j])@.len() <= 0x10000,
            forall|j: int, i: int|
                0 <= j < buffer@.len() && 0 <= i < buffer@[j]@.len() ==> bounded3(
                    vraw(#[trigger] buffer@[j]@[i]),
                    0x4000_0000_0000,
                ),
            jj <= buffer@.len(),
            res@.len() == partial_pixels(buffer@, jj as int),
            forall|j: int, i: int|
                jj <= j < buffer@.len() && 0 <= i < buffer@[j]@.len() ==> #[trigger] res@[offset_of(
                    buffer@,
                    j,
                    i,
                )] == rgb_spec(vraw(buffer@[j]@[i]), samples_per_pixel as int),
        decreases jj,
    {
        jj = jj - 1;
        let row = &buffer[jj];
        let mut i: usize = 0;
        while i < row.len()
            invariant
                1 <= samples_per_pixel <= 0x10_0000,
                buffer@.len() <= 0x10000,
                jj < buffer@.len(),
                row == &buffer@[jj as int],
                forall|j: int| 0 <= j < buffer@.len() ==> (#[trigger] buffer@[j])@.len() <= 0x10000,
                forall|j: int, i2: int|
                    0 <= j < buffer@.len() && 0 <= i2 < buffer@[j]@.len() ==> bounded3(
                        vraw(#[trigger] buffer@[j]@[i2]),
                        0x4000_0000_0000,
                    ),
                i <= row@.len(),
                res@.len() == partial_pixels(buffer@, jj + 1) + i,
                forall|j: int, i2: int|
                    jj + 1 <= j < buffer@.len() && 0 <= i2 < buffer@[j]@.len() ==> #[trigger] res@[offset_of(
                        buffer@,
                        j,
                        i2,
                    )] == rgb_spec(vraw(buffer@[j]@[i2]), samples_per_pixel as int),
                forall|i2: int|
                    0 <= i2 < i ==> #[trigger] res@[offset_of(buffer@, jj as int, i2)] == rgb_spec(
                        vraw(buffer@[jj as int]@[i2]),
                        samples_per_pixel as int,
                    ),
            decreases row@.len() - i,
        {
            let c = row[i];
            let px = c.write_color(samples_per_pixel);
            proof {
                assert(px == rgb_spec(vraw(buffer@[jj as int]@[i as int]),
                    samples_per_pixel as int));
            }
            res.push(px);
            proof {
                lemma_partial_pixels_nonneg(buffer@, jj + 1);
                assert forall|j: int, i2: int|
                    jj + 1 <= j < buffer@.len() && 0 <= i2 < buffer@[j]@.len() implies 0 <= (
                    #[trigger] offset_of(buffer@, j, i2)) < res@.len() - 1 by {
                    lemma_partial_pixels_bound(buffer@, jj + 1, j);
                    lemma_partial_pixels_nonneg(buffer@, j + 1);
                }
            }
            i = i + 1;
        }
        proof {
            assert(partial_pixels(buffer@, jj as int) == partial_pixels(buffer@, jj + 1)
                + buffer@[jj as int]@.len());
        }
    }
    res
}

/// Emitted-pixel counts are never negative.
pub proof fn lemma_partial_pixels_nonneg(b: Seq<Vec<Vec3>>, j: int)
    ensures
        partial_pixels(b, j) >= 0,
    decreases b.len() - j,
{
    if 0 <= j < b.len() {
        lemma_partial_pixels_nonneg(b, j + 1);
    }
}

/// The pixels of every row at or above `j` lie within the pixels counted
/// from `lo` on, when `lo <= j`.
pub proof fn lemma_partial_pixels_bound(b: Seq<Vec<Vec3>>, lo: int, j: int)
    requires
        0 <= lo <= j < b.len(),
    ensures
        partial_pixels(b, lo) >= partial_pixels(b, j + 1) + b[j]@.len(),
    decreases j - lo,
{
    if lo == j {
    } else {
        lemma_partial_pixels_bound(b, lo + 1, j);
        lemma_partial_pixels_nonneg(b, lo + 1);
        assert(b[lo]@.len() >= 0);
    }
}

/// The total number of pixels in a buffer of rows.
pub open spec fn total_pixels(b: Seq<Vec<Vec3>>) -> int {
    partial_pixels(b, 0)
}

/// The number of pixels in rows `j` and above (the rows already emitted when
/// the countdown has reached `j`).
pub open spec fn partial_pixels(b: Seq<Vec<Vec3>>, j: int) -> int
    decreases b.len() - j,
{
    if j < 0 || j >= b.len() {
        0
    } else {
        partial_pixels(b, j + 1) + b[j]@.len()
    }
}

/// The output position of pixel `(j, i)`: rows are emitted from the top
/// (highest `j`) down, pixels left to right.
pub open spec fn offset_of(b: Seq<Vec<Vec3>>, j: int, i: int) -> int {
    partial_pixels(b, j + 1) + i
}

/// The quantized output pixel for an accumulated sum.
pub open spec fn rgb_spec(c: (int, int, int), samples: int) -> Rgb {
    Rgb {
        r: write_color_spec(c, samples).0 as u8,
        g: write_color_spec(c, samples).1 as u8,
        b: write_color_spec(c, samples).2 as u8,
    }
}

} // verus!
