//! Rays: accessors and parametrized point evaluation.

use rtweekend::scalar::Fx;
use rtweekend::{Ray, Vec3};

fn v(x: i64, y: i64, z: i64) -> Vec3 {
    Vec3::new(Fx::from_int(x), Fx::from_int(y), Fx::from_int(z))
}

#[test]
fn accessors_return_the_construction_values() {
    let r = Ray::new(v(1, 2, 3), v(4, 5, 6));
    assert_eq!(r.origin().x().raw(), 65536);
    assert_eq!(r.origin().y().raw(), 2 * 65536);
    assert_eq!(r.direction().z().raw(), 6 * 65536);
}

#[test]
fn at_evaluates_origin_plus_t_direction() {
    let r = Ray::new(v(1, 0, 0), v(0, 2, 0));
    let p = r.at(Fx::from_raw(98304)); // t = 1.5
    assert_eq!((p.x().raw(), p.y().raw(), p.z().raw()), (65536, 3 * 65536, 0));
    // Negative t walks behind the origin; callers enforce valid ranges.
    let q = r.at(Fx::from_int(-1));
    assert_eq!(q.y().raw(), -2 * 65536);
    // t = 0 is the origin itself.
    let o = r.at(Fx::from_raw(0));
    assert_eq!((o.x().raw(), o.y().raw(), o.z().raw()), (65536, 0, 0));
}

#[test]
fn quantized_products_round_toward_zero_along_the_ray() {
    // direction 1/3, t = 1/3: the product rounds down to 7281/65536.
    let third = Fx::from_int(1).div(Fx::from_int(3));
    let r = Ray::new(v(0, 0, 0), Vec3::new(third, Fx::from_raw(0), Fx::from_raw(0)));
    let p = r.at(third);
    assert_eq!(p.x().raw(), 7281);
}
