//! The output pipeline: camera rays, gamma/clamp quantization endpoints, and
//! a small end-to-end render of the classic two-sphere scene.

use rtweekend::render::{buffer_to_pixels, render_row};
use rtweekend::scalar::Fx;
use rtweekend::{Camera, HittableList, Lambertian, Sphere, SurfaceMaterial, Vec3};

fn v(x: i64, y: i64, z: i64) -> Vec3 {
    Vec3::new(Fx::from_int(x), Fx::from_int(y), Fx::from_int(z))
}

fn vr(x: i64, y: i64, z: i64) -> Vec3 {
    Vec3::new(Fx::from_raw(x), Fx::from_raw(y), Fx::from_raw(z))
}

fn pinhole_camera() -> Camera {
    // 90 degree vertical field of view (half-angle tangent exactly one),
    // square viewport, focus distance one, no aperture.
    Camera::new(
        v(0, 0, 0),
        v(0, 0, -1),
        v(0, 1, 0),
        Fx::from_int(1),
        Fx::from_int(1),
        Fx::from_raw(0),
        Fx::from_int(1),
    )
}

#[test]
fn pinhole_camera_center_ray_points_forward() {
    let cam = pinhole_camera();
    let r = cam.get_ray(Fx::from_raw(32768), Fx::from_raw(32768));
    assert_eq!((r.orig.x.raw, r.orig.y.raw, r.orig.z.raw), (0, 0, 0));
    assert_eq!((r.dir.x.raw, r.dir.y.raw, r.dir.z.raw), (0, 0, -65536));
}

#[test]
fn pinhole_camera_corner_rays_span_the_viewport() {
    let cam = pinhole_camera();
    let ll = cam.get_ray(Fx::from_raw(0), Fx::from_raw(0));
    assert_eq!((ll.dir.x.raw, ll.dir.y.raw, ll.dir.z.raw), (-65536, -65536, -65536));
    let ur = cam.get_ray(Fx::from_raw(65536), Fx::from_raw(65536));
    assert_eq!((ur.dir.x.raw, ur.dir.y.raw, ur.dir.z.raw), (65536, 65536, -65536));
}

#[test]
fn gamma_clamp_round_trip_hits_the_endpoints() {
    // A sum of exactly samples * (1,1,1) must quantize to pure white, and an
    // all-zero sum to pure black.
    let samples: u64 = 100;
    let white_sum = v(100, 100, 100);
    let px = white_sum.write_color(samples);
    assert_eq!((px.r, px.g, px.b), (255, 255, 255));
    let black_sum = v(0, 0, 0);
    let px0 = black_sum.write_color(samples);
    assert_eq!((px0.r, px0.g, px0.b), (0, 0, 0));
}

#[test]
fn write_color_averages_and_gamma_corrects() {
    // Sum 25 over 100 samples: average 0.25, gamma 0.5, channel 128.
    let sum = v(25, 25, 25);
    let px = sum.write_color(100);
    assert_eq!((px.r, px.g, px.b), (128, 128, 128));
}

#[test]
fn write_color_caps_bright_sums_and_darkens_negative_noise() {
    // Twice full brightness still clamps to 255.
    let bright = v(200, 200, 200);
    let px = bright.write_color(100);
    assert_eq!((px.r, px.g, px.b), (255, 255, 255));
    // A negative accumulated channel (quantization noise) darkens to zero.
    let noisy = Vec3::new(Fx::from_raw(-5 * 65536), Fx::from_raw(0), Fx::from_raw(0));
    let px2 = noisy.write_color(100);
    assert_eq!((px2.r, px2.g, px2.b), (0, 0, 0));
}

#[test]
fn two_sphere_scene_renders_sky_above_and_surface_below() {
    let gray = SurfaceMaterial::Lambertian(Lambertian::new(vr(32768, 32768, 32768)));
    let mut world = HittableList::new();
    world.add(Sphere::new(v(0, 0, -1), Fx::from_raw(32768), gray));
    world.add(Sphere::new(
        Vec3::new(Fx::from_raw(0), Fx::from_raw(-100 * 65536 - 32768), Fx::from_raw(-65536)),
        Fx::from_int(100),
        gray,
    ));
    let cam = pinhole_camera();

    let width: usize = 100;
    let height: usize = 56;
    let samples: u32 = 4;
    let depth: u64 = 8;

    let mut buffer: Vec<Vec<Vec3>> = Vec::new();
    for j in 0..height {
        buffer.push(render_row(&world, &cam, j, width, height, samples, depth));
    }
    let pixels = buffer_to_pixels(&buffer, samples as u64);
    assert_eq!(pixels.len(), width * height);

    // Top row (emitted first): sky, bright and blue-dominant.
    let top = pixels[width / 2];
    assert!(top.b >= 200, "sky should be bright blue, got {}", top.b);
    assert!(top.b >= top.r, "sky should be blue-dominant");

    // The middle of the image: the sphere silhouette, noticeably darker
    // than the sky above it.
    let row_from_top = height / 2;
    let below_center = pixels[row_from_top * width + width / 2];
    assert!(below_center.r < top.b, "sphere should be darker than sky");
    // The gray sphere has no blue bias.
    let diff = below_center.b as i32 - below_center.r as i32;
    assert!(diff.abs() <= 60);
}
