//! Exact fixed-point arithmetic behavior.

use rtweekend::scalar::Fx;
use rtweekend::{clamp, degrees_to_radians, random_double, Degrees};

#[test]
fn add_sub_mul_exact() {
    let three = Fx::from_int(3);
    let two = Fx::from_int(2);
    assert_eq!(three.add(two).raw(), 5 * 65536);
    assert_eq!(three.sub(two).raw(), 65536);
    assert_eq!(three.mul(two).raw(), 6 * 65536);
    assert_eq!(three.neg().raw(), -3 * 65536);
}

#[test]
fn mul_rounds_toward_zero() {
    // 1.5 * 0.5 = 0.75 exactly representable; (-3) / 2 truncates toward zero.
    let a = Fx::from_raw(98304);
    let b = Fx::from_raw(32768);
    assert_eq!(a.mul(b).raw(), 49152);
    let c = Fx::from_raw(-1);
    // -1/65536 * 1/65536 is below one quantum: truncates to zero, not -1.
    assert_eq!(c.mul(Fx::from_raw(1)).raw(), 0);
}

#[test]
fn div_exact_and_truncating() {
    let minus_three = Fx::from_int(-3);
    let two = Fx::from_int(2);
    assert_eq!(minus_three.div(two).raw(), -98304); // -1.5
    assert_eq!(Fx::from_int(1).div(Fx::from_int(3)).raw(), 21845); // 1/3 rounded down
}

#[test]
fn sqrt_exact_squares_and_rounding() {
    assert_eq!(Fx::from_int(4).sqrt().raw(), 2 * 65536);
    assert_eq!(Fx::from_int(1).sqrt().raw(), 65536);
    assert_eq!(Fx::from_int(0).sqrt().raw(), 0);
    // sqrt(2) = 92681.9... raw, rounded down.
    assert_eq!(Fx::from_int(2).sqrt().raw(), 92681);
}

#[test]
fn abs_and_accessors() {
    assert_eq!(Fx::from_raw(-7).abs().raw(), 7);
    assert_eq!(Fx::from_raw(7).abs().raw(), 7);
    assert_eq!(Fx::zero().raw(), 0);
    assert_eq!(Fx::one().raw(), 65536);
}

#[test]
fn clamp_forces_range() {
    let lo = Fx::from_raw(0);
    let hi = Fx::from_raw(65470);
    assert_eq!(clamp(Fx::from_raw(-5), lo, hi).raw(), 0);
    assert_eq!(clamp(Fx::from_raw(70000), lo, hi).raw(), 65470);
    assert_eq!(clamp(Fx::from_raw(1234), lo, hi).raw(), 1234);
}

#[test]
fn degrees_convert_by_fixed_pi() {
    // 180 degrees is exactly the fixed-point circle constant.
    let r = degrees_to_radians(Degrees(Fx::from_int(180)));
    assert_eq!(r.0.raw(), 205887);
    // 90 degrees is half of it, rounded toward zero.
    let half = degrees_to_radians(Degrees(Fx::from_int(90)));
    assert_eq!(half.0.raw(), 102943);
    let zero = degrees_to_radians(Degrees(Fx::from_int(0)));
    assert_eq!(zero.0.raw(), 0);
}

#[test]
fn random_double_stays_in_range() {
    let lo = Fx::from_int(-1);
    let hi = Fx::from_int(1);
    for _ in 0..200 {
        let x = random_double(lo, hi).raw();
        assert!(-65536 <= x && x < 65536);
    }
    let same = random_double(Fx::from_int(5), Fx::from_int(5));
    assert_eq!(same.raw(), 5 * 65536);
}
