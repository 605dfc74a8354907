//! Material scattering: attenuation bounds, the diffuse fallback, specular
//! absorption, and the dielectric reflect/refract branch.

use rtweekend::scalar::Fx;
use rtweekend::{
    Dielectric, HitRecord, Lambertian, Metal, Ray, SurfaceMaterial, Vec3,
};
use rtweekend::material::Material;

fn v(x: i64, y: i64, z: i64) -> Vec3 {
    Vec3::new(Fx::from_int(x), Fx::from_int(y), Fx::from_int(z))
}

fn vr(x: i64, y: i64, z: i64) -> Vec3 {
    Vec3::new(Fx::from_raw(x), Fx::from_raw(y), Fx::from_raw(z))
}

fn rec_at(p: Vec3, normal: Vec3, front_face: bool) -> HitRecord {
    HitRecord {
        p,
        normal,
        t: Fx::from_int(1),
        front_face,
        material: SurfaceMaterial::Lambertian(Lambertian::new(vr(32768, 32768, 32768))),
    }
}

#[test]
fn lambertian_attenuates_by_albedo() {
    let albedo = vr(32768, 16384, 8192);
    let mat = Lambertian::new(albedo);
    let rec = rec_at(v(0, 0, -1), v(0, 0, 1), true);
    let (attenuation, scattered) = mat.scatter_with(&rec, vr(0, 65536, 0));
    assert_eq!(attenuation.x.raw, 32768);
    assert_eq!(attenuation.y.raw, 16384);
    assert_eq!(attenuation.z.raw, 8192);
    assert_eq!(scattered.origin().z().raw(), -65536);
    // direction = normal + sample
    assert_eq!(
        (scattered.direction().x().raw(), scattered.direction().y().raw(),
         scattered.direction().z().raw()),
        (0, 65536, 65536),
    );
}

#[test]
fn lambertian_falls_back_to_the_normal_when_degenerate() {
    let mat = Lambertian::new(vr(32768, 32768, 32768));
    let rec = rec_at(v(0, 0, -1), v(0, 0, 1), true);
    // A sample exactly opposite the normal sums to zero: fall back.
    let (_, scattered) = mat.scatter_with(&rec, vr(0, 0, -65536));
    assert_eq!(
        (scattered.direction().x().raw(), scattered.direction().y().raw(),
         scattered.direction().z().raw()),
        (0, 0, 65536),
    );
}

#[test]
fn lambertian_scatter_always_within_energy_bounds() {
    let mat = Lambertian::new(vr(65536, 32768, 0));
    let rec = rec_at(v(0, 0, -1), v(0, 0, 1), true);
    for _ in 0..20 {
        let (attenuation, _) = mat.scatter(&Ray::new(v(0, 0, 0), v(0, 0, -1)), &rec).unwrap();
        for c in [attenuation.x.raw, attenuation.y.raw, attenuation.z.raw] {
            assert!(0 <= c && c <= 65536);
        }
    }
}

#[test]
fn metal_mirror_reflects_exactly() {
    let mat = Metal::new(vr(45875, 45875, 45875), Fx::from_raw(0));
    let rec = rec_at(v(0, 0, -1), v(0, 0, 1), true);
    let ray_in = Ray::new(v(0, 0, 0), v(0, 0, -1));
    let (attenuation, scattered) = mat.scatter_with(&ray_in, &rec, v(0, 0, 0)).unwrap();
    assert_eq!(attenuation.x.raw, 45875);
    assert_eq!(
        (scattered.direction().x().raw(), scattered.direction().y().raw(),
         scattered.direction().z().raw()),
        (0, 0, 65536),
    );
    assert_eq!(scattered.origin().z().raw(), -65536);
}

#[test]
fn metal_absorbs_rays_scattered_into_the_surface() {
    // Incoming along the normal from behind: the reflection points into the
    // surface, so the scatter is absorbed.
    let mat = Metal::new(vr(45875, 45875, 45875), Fx::from_raw(0));
    let rec = rec_at(v(0, 0, -1), v(0, 0, 1), true);
    let ray_in = Ray::new(v(0, 0, -2), v(0, 0, 1));
    assert!(mat.scatter_with(&ray_in, &rec, v(0, 0, 0)).is_none());
}

#[test]
fn metal_fuzz_displaces_by_the_sample() {
    let mat = Metal::new(vr(45875, 45875, 45875), Fx::from_raw(32768));
    let rec = rec_at(v(0, 0, -1), v(0, 0, 1), true);
    let ray_in = Ray::new(v(0, 0, 0), v(0, 0, -1));
    let (_, scattered) = mat.scatter_with(&ray_in, &rec, vr(65536, 0, 0)).unwrap();
    // reflected (0,0,1) plus 0.5 * (1,0,0)
    assert_eq!(
        (scattered.direction().x().raw(), scattered.direction().y().raw(),
         scattered.direction().z().raw()),
        (32768, 0, 65536),
    );
}

#[test]
fn dielectric_head_on_refracts_straight_through() {
    let mat = Dielectric::new(Fx::from_raw(98304)); // 1.5
    let rec = rec_at(v(0, 0, -1), v(0, 0, 1), true);
    let ray_in = Ray::new(v(0, 0, 0), v(0, 0, -1));
    // Draw near one: reflectance at normal incidence (~4%) cannot exceed it.
    let (attenuation, scattered) = mat.scatter_with(&ray_in, &rec, Fx::from_raw(65535)).unwrap();
    assert_eq!((attenuation.x.raw, attenuation.y.raw, attenuation.z.raw), (65536, 65536, 65536));
    assert_eq!(
        (scattered.direction().x().raw(), scattered.direction().y().raw(),
         scattered.direction().z().raw()),
        (0, 0, -65536),
    );
}

#[test]
fn dielectric_total_internal_reflection() {
    // Leaving the dense medium at a grazing angle: ratio * sin exceeds one,
    // so the ray must reflect, whatever the draw.
    let mat = Dielectric::new(Fx::from_raw(98304)); // 1.5
    let rec = rec_at(v(0, 0, 0), v(0, 0, 1), false);
    let dir = vr(52429, 0, -39322); // about (0.8, 0, -0.6), unit length
    let ray_in = Ray::new(v(0, 0, 1), dir);
    let (_, scattered) = mat.scatter_with(&ray_in, &rec, Fx::from_raw(65535)).unwrap();
    // Reflection flips the z component.
    assert_eq!(scattered.direction().x().raw(), 52429);
    assert_eq!(scattered.direction().y().raw(), 0);
    assert_eq!(scattered.direction().z().raw(), 39322);
}

#[test]
fn dielectric_draw_below_reflectance_reflects() {
    // Draw zero: even head-on incidence reflects, since the Schlick
    // reflectance is positive.
    let mat = Dielectric::new(Fx::from_raw(98304));
    let rec = rec_at(v(0, 0, -1), v(0, 0, 1), true);
    let ray_in = Ray::new(v(0, 0, 0), v(0, 0, -1));
    let (_, scattered) = mat.scatter_with(&ray_in, &rec, Fx::from_raw(0)).unwrap();
    assert_eq!(scattered.direction().z().raw(), 65536);
}

#[test]
fn surface_material_dispatches_by_variant() {
    let rec = rec_at(v(0, 0, -1), v(0, 0, 1), true);
    let ray_in = Ray::new(v(0, 0, 0), v(0, 0, -1));
    let m = SurfaceMaterial::Metal(Metal::new(vr(45875, 45875, 45875), Fx::from_raw(0)));
    for _ in 0..10 {
        let (attenuation, _) = m.scatter(&ray_in, &rec).unwrap();
        assert_eq!(attenuation.x.raw, 45875);
    }
}
