//! The recursive radiance estimator: depth cutoff, exact sky gradient, and
//! energy bounds, plus order-independent accumulation.

use rtweekend::render::{accumulate_samples, ray_color};
use rtweekend::scalar::Fx;
use rtweekend::{HittableList, Lambertian, Ray, Sphere, SurfaceMaterial, Vec3};

fn v(x: i64, y: i64, z: i64) -> Vec3 {
    Vec3::new(Fx::from_int(x), Fx::from_int(y), Fx::from_int(z))
}

fn vr(x: i64, y: i64, z: i64) -> Vec3 {
    Vec3::new(Fx::from_raw(x), Fx::from_raw(y), Fx::from_raw(z))
}

fn one_sphere_world() -> HittableList {
    let gray = SurfaceMaterial::Lambertian(Lambertian::new(vr(32768, 32768, 32768)));
    let mut world = HittableList::new();
    world.add(Sphere::new(v(0, 0, -2), Fx::from_int(1), gray));
    world
}

#[test]
fn depth_zero_is_black() {
    let world = one_sphere_world();
    let c = ray_color(&Ray::new(v(0, 0, 0), v(0, 0, -1)), &world, 0);
    assert_eq!((c.x.raw, c.y.raw, c.z.raw), (0, 0, 0));
    let c2 = ray_color(&Ray::new(v(0, 0, 0), v(0, 1, 0)), &world, 0);
    assert_eq!((c2.x.raw, c2.y.raw, c2.z.raw), (0, 0, 0));
}

#[test]
fn miss_returns_the_exact_sky_gradient() {
    let world = one_sphere_world();
    // Straight up: the blend parameter is exactly one, pure sky blue.
    let up = ray_color(&Ray::new(v(0, 0, 0), v(0, 1, 0)), &world, 10);
    assert_eq!((up.x.raw, up.y.raw, up.z.raw), (32768, 45875, 65536));
    // Straight down: the blend parameter is exactly zero, pure white.
    let down = ray_color(&Ray::new(v(0, 0, 0), v(0, -1, 0)), &world, 10);
    assert_eq!((down.x.raw, down.y.raw, down.z.raw), (65536, 65536, 65536));
    // Horizontal: halfway, the even mix of white and sky blue.
    let level = ray_color(&Ray::new(v(0, 0, 0), v(1, 0, 0)), &world, 10);
    assert_eq!((level.x.raw, level.y.raw, level.z.raw), (49152, 55705, 65536));
}

#[test]
fn bounce_stays_within_energy_bounds() {
    let world = one_sphere_world();
    for _ in 0..30 {
        let c = ray_color(&Ray::new(v(0, 0, 0), v(0, 0, -1)), &world, 16);
        for ch in [c.x.raw, c.y.raw, c.z.raw] {
            assert!(0 <= ch && ch <= 65536);
        }
    }
}

#[test]
fn short_direction_sky_clamps_to_white() {
    // A very short in-model direction normalizes inaccurately: the raw
    // "unit" vector has |y| above one. The sky blend parameter is clamped,
    // so the gradient saturates at pure white instead of extrapolating.
    let world = one_sphere_world();
    let c = ray_color(&Ray::new(v(0, 0, 0), vr(0, -300, 0)), &world, 10);
    assert_eq!((c.x.raw, c.y.raw, c.z.raw), (65536, 65536, 65536));
    // And whatever the direction, no channel ever leaves [0, 1].
    let c2 = ray_color(&Ray::new(v(0, 0, 0), vr(0, 300, 0)), &world, 10);
    for ch in [c2.x.raw, c2.y.raw, c2.z.raw] {
        assert!(0 <= ch && ch <= 65536);
    }
}

#[test]
fn accumulation_is_order_independent() {
    let a = vr(100, 200, 300);
    let b = vr(-50, 75, 0);
    let c = vr(7, -9, 11);
    let d = vr(40000, 1, -2);
    let one_order = vec![a, b, c, d];
    let other_order = vec![d, c, a, b];
    let s1 = accumulate_samples(&one_order);
    let s2 = accumulate_samples(&other_order);
    assert_eq!((s1.x.raw, s1.y.raw, s1.z.raw), (s2.x.raw, s2.y.raw, s2.z.raw));
    assert_eq!((s1.x.raw, s1.y.raw, s1.z.raw), (40057, 267, 309));
}

#[test]
fn split_accumulation_matches_sequential() {
    // Two workers each sum half the samples; the merged total equals the
    // sequential sum of the whole stream.
    let samples = vec![vr(1, 2, 3), vr(4, 5, 6), vr(7, 8, 9), vr(10, 11, 12)];
    let first_half = vec![samples[0], samples[1]];
    let second_half = vec![samples[2], samples[3]];
    let sequential = accumulate_samples(&samples);
    let merged = accumulate_samples(&first_half).add(accumulate_samples(&second_half));
    assert_eq!((sequential.x.raw, sequential.y.raw, sequential.z.raw),
               (merged.x.raw, merged.y.raw, merged.z.raw));
}
