//! Vector algebra over the fixed-point scalar.

use rtweekend::scalar::Fx;
use rtweekend::Vec3;

fn v(x: i64, y: i64, z: i64) -> Vec3 {
    Vec3::new(Fx::from_int(x), Fx::from_int(y), Fx::from_int(z))
}

#[test]
fn componentwise_arithmetic() {
    let a = v(1, 2, 3);
    let b = v(4, 5, 6);
    let s = a.add(b);
    assert_eq!((s.x().raw(), s.y().raw(), s.z().raw()), (5 * 65536, 7 * 65536, 9 * 65536));
    let d = b.sub(a);
    assert_eq!((d.x().raw(), d.y().raw(), d.z().raw()), (3 * 65536, 3 * 65536, 3 * 65536));
    let n = a.neg();
    assert_eq!(n.x().raw(), -65536);
    let m = a.comp_mul(b);
    assert_eq!((m.x().raw(), m.y().raw(), m.z().raw()), (4 * 65536, 10 * 65536, 18 * 65536));
    let sc = a.scale(Fx::from_raw(32768));
    assert_eq!((sc.x().raw(), sc.y().raw(), sc.z().raw()), (32768, 65536, 98304));
    let dv = a.div_by(Fx::from_int(2));
    assert_eq!((dv.x().raw(), dv.y().raw(), dv.z().raw()), (32768, 65536, 98304));
}

#[test]
fn dot_cross_length() {
    let a = v(1, 2, 3);
    let b = v(4, 5, 6);
    assert_eq!(a.dot(b).raw(), 32 * 65536);
    let c = a.cross(b);
    assert_eq!((c.x().raw(), c.y().raw(), c.z().raw()), (-3 * 65536, 6 * 65536, -3 * 65536));
    assert_eq!(v(3, 4, 0).length_squared().raw(), 25 * 65536);
    assert_eq!(v(3, 4, 0).length().raw(), 5 * 65536);
}

#[test]
fn unit_vector_of_axis() {
    let u = v(0, 7, 0).unit_vector();
    assert_eq!((u.x().raw(), u.y().raw(), u.z().raw()), (0, 65536, 0));
}

#[test]
fn near_zero_detects_quantized_zero() {
    assert!(v(0, 0, 0).near_zero());
    assert!(!Vec3::new(Fx::from_raw(1), Fx::from_raw(0), Fx::from_raw(0)).near_zero());
}

#[test]
fn component_access() {
    let a = v(9, 8, 7);
    assert_eq!(a.get(0).raw(), 9 * 65536);
    assert_eq!(a.get(1).raw(), 8 * 65536);
    assert_eq!(a.get(2).raw(), 7 * 65536);
    assert_eq!(a.x().raw(), 9 * 65536);
    assert_eq!(a.y().raw(), 8 * 65536);
    assert_eq!(a.z().raw(), 7 * 65536);
}

#[test]
fn reflect_mirrors_about_normal() {
    // v = (1, -1, 0) off the floor normal (0, 1, 0): reflects to (1, 1, 0).
    let r = Vec3::reflect(v(1, -1, 0), v(0, 1, 0));
    assert_eq!((r.x().raw(), r.y().raw(), r.z().raw()), (65536, 65536, 0));
}

#[test]
fn refract_straight_through() {
    // Head-on incidence refracts straight through for any ratio.
    let r = Vec3::refract(v(0, 0, -1), v(0, 0, 1), Fx::from_raw(43690));
    assert_eq!((r.x().raw(), r.y().raw(), r.z().raw()), (0, 0, -65536));
}

#[test]
fn random_samples_stay_inside_their_regions() {
    for _ in 0..50 {
        let p = Vec3::random_in_unit_sphere();
        assert!(p.length_squared().raw() < 65536);
        let d = Vec3::random_in_unit_disk();
        assert!(d.length_squared().raw() < 65536);
        assert_eq!(d.z().raw(), 0);
        let u = Vec3::random_unit_vector();
        let lsq = u.length_squared().raw();
        assert!(40000 <= lsq && lsq <= 100000);
        let h = Vec3::random_in_hemisphere(v(0, 1, 0));
        assert!(h.length_squared().raw() < 65536);
        assert!(h.dot(v(0, 1, 0)).raw() >= 0);
        let b = Vec3::random(Fx::from_int(-1), Fx::from_int(1));
        assert!(-65536 <= b.x().raw() && b.x().raw() <= 65536);
    }
}
