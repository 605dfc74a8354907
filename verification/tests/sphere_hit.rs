//! Sphere intersection, root selection, normal orientation and nearest-hit
//! aggregation on analytically known configurations.

use rtweekend::scalar::Fx;
use rtweekend::{Hittable, HittableList, Lambertian, Ray, Sphere, SurfaceMaterial, Vec3};

fn v(x: i64, y: i64, z: i64) -> Vec3 {
    Vec3::new(Fx::from_int(x), Fx::from_int(y), Fx::from_int(z))
}

fn gray() -> SurfaceMaterial {
    SurfaceMaterial::Lambertian(Lambertian::new(Vec3::new(
        Fx::from_raw(32768),
        Fx::from_raw(32768),
        Fx::from_raw(32768),
    )))
}

fn forward_ray() -> Ray {
    Ray::new(v(0, 0, 0), v(0, 0, -1))
}

// Unit sphere at (0,0,-2): the ray from the origin down -z meets it at t=1
// (near side) and t=3 (far side), exactly in fixed point.
fn unit_sphere() -> Sphere {
    Sphere::new(v(0, 0, -2), Fx::from_int(1), gray())
}

#[test]
fn hit_reports_smaller_root_when_admissible() {
    let rec = unit_sphere().hit(&forward_ray(), Fx::from_raw(0), Fx::from_int(10)).unwrap();
    assert_eq!(rec.t.raw, 65536);
    assert_eq!((rec.p.x.raw, rec.p.y.raw, rec.p.z.raw), (0, 0, -65536));
    assert!(rec.front_face);
    assert_eq!((rec.normal.x.raw, rec.normal.y.raw, rec.normal.z.raw), (0, 0, 65536));
}

#[test]
fn hit_falls_back_to_larger_root() {
    // t_min between the roots: the near root is rejected, the far one wins.
    let rec = unit_sphere().hit(&forward_ray(), Fx::from_int(2), Fx::from_int(10)).unwrap();
    assert_eq!(rec.t.raw, 3 * 65536);
    assert!(!rec.front_face);
    assert_eq!((rec.normal.x.raw, rec.normal.y.raw, rec.normal.z.raw), (0, 0, 65536));
}

#[test]
fn hit_rejects_window_outside_roots() {
    // Window entirely before the near root.
    assert!(unit_sphere().hit(&forward_ray(), Fx::from_raw(0), Fx::from_raw(32768)).is_none());
    // Window entirely past the far root.
    assert!(unit_sphere().hit(&forward_ray(), Fx::from_int(4), Fx::from_int(10)).is_none());
}

#[test]
fn miss_reports_none() {
    let up = Ray::new(v(0, 0, 0), v(0, 1, 0));
    assert!(unit_sphere().hit(&up, Fx::from_raw(0), Fx::from_int(10)).is_none());
}

#[test]
fn normal_faces_the_ray_from_inside_too() {
    // Ray starting at the sphere's center: the hit is on the far wall, the
    // outward normal points away from the ray, so the reported normal is the
    // flipped one and the front-face flag is off.
    let inside = Ray::new(v(0, 0, -2), v(0, 0, -1));
    let rec = unit_sphere().hit(&inside, Fx::from_raw(0), Fx::from_int(10)).unwrap();
    assert_eq!(rec.t.raw, 65536);
    assert!(!rec.front_face);
    assert_eq!((rec.normal.x.raw, rec.normal.y.raw, rec.normal.z.raw), (0, 0, 65536));
    // dot(direction, normal) <= 0 in both orientations.
    assert!(inside.direction().dot(rec.normal).raw() <= 0);
}

#[test]
fn negative_radius_flips_the_normal() {
    let hollow = Sphere::new(v(0, 0, -2), Fx::from_int(-1), gray());
    let rec = hollow.hit(&forward_ray(), Fx::from_raw(0), Fx::from_int(10)).unwrap();
    assert_eq!(rec.t.raw, 65536);
    // The outward normal is inverted by the negative radius, so the ray now
    // counts as hitting a front face from inside the shell.
    assert!(!rec.front_face);
    assert_eq!((rec.normal.x.raw, rec.normal.y.raw, rec.normal.z.raw), (0, 0, 65536));
}

#[test]
fn nearest_hit_wins_regardless_of_insertion_order() {
    let near = unit_sphere(); // roots 1 and 3
    let far = Sphere::new(v(0, 0, -3), Fx::from_int(1), gray()); // roots 2 and 4
    let r = forward_ray();

    let mut world_a = HittableList::new();
    world_a.add(near);
    world_a.add(far);
    let rec_a = world_a.hit(&r, Fx::from_raw(0), Fx::from_int(10)).unwrap();

    let mut world_b = HittableList::new();
    world_b.add(far);
    world_b.add(near);
    let rec_b = world_b.hit(&r, Fx::from_raw(0), Fx::from_int(10)).unwrap();

    assert_eq!(rec_a.t.raw, 65536);
    assert_eq!(rec_b.t.raw, 65536);
    assert_eq!(rec_a.p.z.raw, rec_b.p.z.raw);
    assert_eq!(rec_a.normal.z.raw, rec_b.normal.z.raw);
}

#[test]
fn aggregation_narrows_to_the_closest() {
    // With the window capped between the two spheres, only the near one hits.
    let near = unit_sphere();
    let far = Sphere::new(v(0, 0, -3), Fx::from_int(1), gray());
    let mut world = HittableList::new();
    world.add(far);
    world.add(near);
    let rec = world.hit(&forward_ray(), Fx::from_raw(0), Fx::from_raw(98304)).unwrap();
    assert_eq!(rec.t.raw, 65536);
    // An empty list never hits.
    let empty = HittableList::new();
    assert!(empty.hit(&forward_ray(), Fx::from_raw(0), Fx::from_int(10)).is_none());
}

#[test]
fn clear_empties_the_scene() {
    let mut world = HittableList::new();
    world.add(unit_sphere());
    world.clear();
    assert!(world.hit(&forward_ray(), Fx::from_raw(0), Fx::from_int(10)).is_none());
}
