//! The scalar type of the tracer: a fixed-point real with 16 fractional bits.
//!
//! A value `Fx { raw }` stands for the real number `raw / 65536`. Products and
//! quotients round toward zero, which [`tdiv`] captures exactly, so every
//! arithmetic contract in the crate is an exact statement about `raw` values.

use vstd::arithmetic::div_mod::{
    lemma_div_by_multiple, lemma_div_is_ordered, lemma_div_is_ordered_by_denominator,
    lemma_div_multiples_vanish, lemma_div_multiples_vanish_fancy,
};
use vstd::prelude::*;

verus! {

/// Raw units per real unit: the value one as a raw count.
pub const SCALE: i64 = 65536;

/// A fixed-point real number: `raw` counts of 1/65536.
#[derive(Clone, Copy, Debug, PartialEq, Eq, Structural)]
pub struct Fx {
    pub raw: i64,
}

/// Absolute value of a mathematical integer.
pub open spec fn abs_i(x: int) -> int {
    if x < 0 {
        -x
    } else {
        x
    }
}

/// Quotient of `a` by `b` rounded toward zero, as Rust division rounds.
pub open spec fn tdiv(a: int, b: int) -> int {
    if (a < 0) == (b < 0) {
        abs_i(a) / abs_i(b)
    } else {
        -(abs_i(a) / abs_i(b))
    }
}

/// The raw value of the product of two fixed-point values.
pub open spec fn fxmul(a: int, b: int) -> int {
    tdiv(a * b, SCALE as int)
}

/// The raw value of the quotient of two fixed-point values.
pub open spec fn fxdiv(a: int, b: int) -> int {
    tdiv(a * SCALE, b)
}

/// `r` is the integer square root of `x`.
pub open spec fn is_sqrt(x: int, r: int) -> bool {
    &&& r >= 0
    &&& r * r <= x
    &&& x < (r + 1) * (r + 1)
}

/// The integer square root of `x` (meaningful for `x >= 0`).
pub open spec fn sqrt_i(x: int) -> int {
    choose|r: int| is_sqrt(x, r)
}

/// The raw value of the square root of a fixed-point value with raw value `a`.
pub open spec fn fxsqrt(a: int) -> int {
    sqrt_i(a * SCALE)
}

/// `x` fits the raw field of a scalar (the symmetric i64 range).
pub open spec fn fits(x: int) -> bool {
    -0x7fff_ffff_ffff_ffff <= x <= 0x7fff_ffff_ffff_ffff
}

/// Bounds on two factors bound their product.
pub proof fn lemma_mul_bounds(a: int, b: int, aa: int, bb: int)
    by (nonlinear_arith)
    requires
        -aa <= a <= aa,
        -bb <= b <= bb,
        0 <= aa,
        0 <= bb,
    ensures
        -(aa * bb) <= a * b <= aa * bb,
{
}

/// Every nonnegative integer has an integer square root.
pub proof fn lemma_sqrt_exists(x: int)
    requires
        x >= 0,
    ensures
        is_sqrt(x, sqrt_i(x)),
    decreases x,
{
    if x == 0 {
        assert(is_sqrt(0, 0));
    } else {
        lemma_sqrt_exists(x - 1);
        let r = sqrt_i(x - 1);
        if (r + 1) * (r + 1) <= x {
            assert(x == (r + 1) * (r + 1));
            assert((r + 1) * (r + 1) < (r + 2) * (r + 2)) by (nonlinear_arith)
                requires
                    r >= 0,
            ;
            assert(is_sqrt(x, r + 1));
        } else {
            assert(is_sqrt(x, r));
        }
    }
}

/// The integer square root is unique.
pub proof fn lemma_sqrt_unique(x: int, r: int)
    requires
        x >= 0,
        is_sqrt(x, r),
    ensures
        r == sqrt_i(x),
{
    lemma_sqrt_exists(x);
    let s = sqrt_i(x);
    assert(r == s) by (nonlinear_arith)
        requires
            r >= 0,
            s >= 0,
            r * r <= x,
            x < (r + 1) * (r + 1),
            s * s <= x,
            x < (s + 1) * (s + 1),
    ;
}

/// Bounds on two fixed-point factors bound their fixed-point product.
pub proof fn lemma_fxmul_bound(a: int, b: int, aa: int, bb: int)
    requires
        -aa <= a <= aa,
        -bb <= b <= bb,
        0 <= aa,
        0 <= bb,
    ensures
        -((aa * bb) / 65536) <= fxmul(a, b) <= (aa * bb) / 65536,
{
    lemma_mul_bounds(a, b, aa, bb);
    lemma_div_is_ordered(abs_i(a * b), aa * bb, 65536);
    assert(abs_i(a * b) / 65536 >= 0) by (nonlinear_arith)
        requires
            abs_i(a * b) >= 0,
    ;
}

/// A product bounded by a multiple of the scale has a fixed-point product
/// bounded by the multiplier.
pub proof fn lemma_fxmul_fits(a: int, b: int, c: int)
    requires
        abs_i(a * b) <= c * 65536,
        0 <= c,
    ensures
        abs_i(fxmul(a, b)) <= c,
{
    lemma_div_is_ordered(abs_i(a * b), c * 65536, 65536);
    lemma_div_multiples_vanish(c, 65536);
    assert(abs_i(a * b) / 65536 >= 0) by (nonlinear_arith)
        requires
            abs_i(a * b) >= 0,
    ;
}

/// A numerator bound and a denominator floor bound a fixed-point quotient.
pub proof fn lemma_fxdiv_bound(a: int, b: int, aa: int, bmin: int)
    requires
        abs_i(a) <= aa,
        abs_i(b) >= bmin,
        bmin >= 1,
        0 <= aa,
    ensures
        abs_i(fxdiv(a, b)) <= (aa * 65536) / bmin,
{
    assert(abs_i(a * 65536) == abs_i(a) * 65536) by (nonlinear_arith);
    assert(abs_i(a) * 65536 <= aa * 65536) by (nonlinear_arith)
        requires
            abs_i(a) <= aa,
    ;
    lemma_div_is_ordered(abs_i(a * 65536), aa * 65536, abs_i(b));
    lemma_div_is_ordered_by_denominator(aa * 65536, bmin, abs_i(b));
    assert(abs_i(a * 65536) / abs_i(b) >= 0) by (nonlinear_arith)
        requires
            abs_i(a * 65536) >= 0,
            abs_i(b) >= 1,
    ;
}

/// A quotient whose numerator magnitude is below its denominator's stays
/// below one (at most 65535 raw).
pub proof fn lemma_fxdiv_lt_one(a: int, b: int)
    requires
        abs_i(a) < abs_i(b),
        b != 0,
    ensures
        abs_i(fxdiv(a, b)) <= 65535,
{
    let x = abs_i(a * 65536);
    let d = abs_i(b);
    assert(abs_i(a * 65536) == abs_i(a) * 65536) by (nonlinear_arith);
    assert(abs_i(a) * 65536 <= (d - 1) * 65536) by (nonlinear_arith)
        requires
            abs_i(a) <= d - 1,
    ;
    vstd::arithmetic::div_mod::lemma_fundamental_div_mod(x, d);
    vstd::arithmetic::div_mod::lemma_mod_division_less_than_divisor(x, d);
    assert(x / d >= 0) by (nonlinear_arith)
        requires
            x >= 0,
            d >= 1,
            x == d * (x / d) + x % d,
            0 <= x % d < d,
    ;
    assert(x / d <= 65535) by (nonlinear_arith)
        requires
            x == d * (x / d) + x % d,
            0 <= x % d < d,
            x <= (d - 1) * 65536,
            d >= 1,
            x / d >= 0,
    ;
}

/// Truncating division composes: dividing by `a` and then by `b` equals
/// dividing by `a * b`, for positive divisors.
pub proof fn lemma_tdiv_compose(x: int, a: int, b: int)
    requires
        a >= 1,
        b >= 1,
    ensures
        tdiv(tdiv(x, a), b) == tdiv(x, a * b),
{
    vstd::arithmetic::div_mod::lemma_div_denominator(abs_i(x), a, b);
    assert(a * b >= 1) by (nonlinear_arith)
        requires
            a >= 1,
            b >= 1,
    ;
    let q = abs_i(x) / a;
    assert(q >= 0) by (nonlinear_arith)
        requires
            abs_i(x) >= 0,
            a >= 1,
            q == abs_i(x) / a,
    ;
    assert(q / b >= 0) by (nonlinear_arith)
        requires
            q >= 0,
            b >= 1,
    ;
}

/// A common positive factor of numerator and denominator cancels out of a
/// truncating quotient.
pub proof fn lemma_tdiv_cancel(y: int, m: int, d: int)
    requires
        m >= 1,
        d >= 1,
    ensures
        tdiv(y * m, d * m) == tdiv(y, d),
{
    assert(abs_i(y * m) == abs_i(y) * m) by (nonlinear_arith)
        requires
            m >= 1,
    ;
    assert(d * m >= 1) by (nonlinear_arith)
        requires
            m >= 1,
            d >= 1,
    ;
    vstd::arithmetic::div_mod::lemma_div_multiples_vanish_quotient(m, abs_i(y), d);
    assert(m * abs_i(y) == abs_i(y) * m) by (nonlinear_arith);
    assert(m * d == d * m) by (nonlinear_arith);
    assert((y * m < 0) == (y < 0)) by (nonlinear_arith)
        requires
            m >= 1,
    ;
}

/// A positive span scaled by a fraction below one lands strictly below it.
pub proof fn lemma_fraction_below(d: int, u: int)
    requires
        d >= 0,
        0 <= u < 65536,
    ensures
        0 <= fxmul(d, u) <= if d > 0 {
            d - 1
        } else {
            0
        },
{
    assert(d * u >= 0) by (nonlinear_arith)
        requires
            d >= 0,
            u >= 0,
    ;
    assert(abs_i(d * u) / 65536 >= 0) by (nonlinear_arith)
        requires
            abs_i(d * u) >= 0,
    ;
    if d > 0 {
        assert(d * u <= 65536 * (d - 1) + 65535) by (nonlinear_arith)
            requires
                d >= 1,
                0 <= u < 65536,
        ;
        lemma_div_multiples_vanish_fancy(d - 1, 65535, 65536);
        lemma_div_is_ordered(d * u, 65536 * (d - 1) + 65535, 65536);
    }
}

/// A product that is an exact multiple of the scale divides out exactly.
pub proof fn lemma_fxmul_exact(a: int, b: int, q: int)
    requires
        a * b == q * 65536,
    ensures
        fxmul(a, b) == q,
{
    if q >= 0 {
        assert(abs_i(a * b) == q * 65536);
        lemma_div_by_multiple(q, 65536);
    } else {
        assert(abs_i(a * b) == (-q) * 65536);
        lemma_div_by_multiple(-q, 65536);
    }
}

/// Scaling by zero gives exactly zero.
pub proof fn lemma_fxmul_zero(a: int)
    ensures
        fxmul(a, 0) == 0,
{
    assert(a * 0 == 0 * 65536) by (nonlinear_arith);
    lemma_fxmul_exact(a, 0, 0);
}

/// Truncating division is monotone in the numerator, for a positive divisor.
pub proof fn lemma_tdiv_monotone(a: int, b: int, d: int)
    requires
        a <= b,
        d >= 1,
    ensures
        tdiv(a, d) <= tdiv(b, d),
{
    if a >= 0 {
        lemma_div_is_ordered(a, b, d);
        assert(tdiv(a, d) == a / d);
        assert(tdiv(b, d) == b / d);
    } else if b < 0 {
        lemma_div_is_ordered(-b, -a, d);
        assert(tdiv(a, d) == -((-a) / d));
        assert(tdiv(b, d) == -((-b) / d));
    } else {
        assert((-a) / d >= 0) by (nonlinear_arith)
            requires
                -a >= 0,
                d >= 1,
        ;
        assert(b / d >= 0) by (nonlinear_arith)
            requires
                b >= 0,
                d >= 1,
        ;
        assert(tdiv(a, d) <= 0);
        assert(tdiv(b, d) >= 0);
    }
}

/// A product of nonnegative factors has a nonnegative fixed-point product.
pub proof fn lemma_fxmul_nonneg(a: int, b: int)
    requires
        a >= 0,
        b >= 0,
    ensures
        fxmul(a, b) >= 0,
{
    assert(a * b >= 0) by (nonlinear_arith)
        requires
            a >= 0,
            b >= 0,
    ;
    assert(abs_i(a * b) / 65536 >= 0) by (nonlinear_arith)
        requires
            abs_i(a * b) >= 0,
    ;
}

/// Negating one fixed-point factor negates the product exactly.
pub proof fn lemma_fxmul_neg(a: int, b: int)
    ensures
        fxmul(a, -b) == -fxmul(a, b),
{
    assert(a * (-b) == -(a * b)) by (nonlinear_arith);
}

impl Fx {
    /// The value `raw / 65536`.
    pub fn from_raw(raw: i64) -> (r: Fx)
        ensures
            r.raw == raw,
    {
        Fx { raw }
    }

    /// The raw count of 1/65536 units.
    pub fn raw(self) -> (r: i64)
        ensures
            r == self.raw,
    {
        self.raw
    }

    /// The whole number `v` as a fixed-point value.
    pub fn from_int(v: i64) -> (r: Fx)
        requires
            -0x7fff_ffff_ffff <= v <= 0x7fff_ffff_ffff,
        ensures
            r.raw == v * 65536,
    {
        Fx { raw: v * 65536 }
    }

    /// Zero.
    pub fn zero() -> (r: Fx)
        ensures
            r.raw == 0,
    {
        Fx { raw: 0 }
    }

    /// One.
    pub fn one() -> (r: Fx)
        ensures
            r.raw == SCALE,
    {
        Fx { raw: SCALE }
    }

    /// Exact sum.
    pub fn add(self, o: Fx) -> (r: Fx)
        requires
            fits(self.raw + o.raw),
        ensures
            r.raw == self.raw + o.raw,
    {
        Fx { raw: self.raw + o.raw }
    }

    /// Exact difference.
    pub fn sub(self, o: Fx) -> (r: Fx)
        requires
            fits(self.raw - o.raw),
        ensures
            r.raw == self.raw - o.raw,
    {
        Fx { raw: self.raw - o.raw }
    }

    /// Exact negation.
    pub fn neg(self) -> (r: Fx)
        requires
            fits(-self.raw),
        ensures
            r.raw == -self.raw,
    {
        Fx { raw: -self.raw }
    }

    /// Absolute value.
    pub fn abs(self) -> (r: Fx)
        requires
            fits(-self.raw),
        ensures
            r.raw == abs_i(self.raw as int),
    {
        if self.raw < 0 {
            Fx { raw: -self.raw }
        } else {
            self
        }
    }

    /// Product, rounded toward zero: the raw result is `fxmul` of the raw inputs.
    pub fn mul(self, o: Fx) -> (r: Fx)
        requires
            -0x7fff_ffff_ffff_ffff * 0x10000 <= self.raw * o.raw <= 0x7fff_ffff_ffff_ffff
                * 0x10000,
        ensures
            r.raw == fxmul(self.raw as int, o.raw as int),
    {
        proof {
            lemma_mul_bounds(
                self.raw as int,
                o.raw as int,
                0x8000_0000_0000_0000,
                0x8000_0000_0000_0000,
            );
        }
        let p: i128 = (self.raw as i128) * (o.raw as i128);
        let neg: bool = p < 0;
        let mag: u128 = if neg {
            (-p) as u128
        } else {
            p as u128
        };
        let q: u128 = mag / 65536u128;
        proof {
            lemma_div_is_ordered(
                mag as int,
                0x7fff_ffff_ffff_ffff * 0x10000int,
                65536,
            );
            lemma_div_multiples_vanish(0x7fff_ffff_ffff_ffff, 65536);
        }
        let signed: i128 = if neg {
            -(q as i128)
        } else {
            q as i128
        };
        Fx { raw: signed as i64 }
    }

    /// Quotient, rounded toward zero: the raw result is `fxdiv` of the raw inputs.
    pub fn div(self, o: Fx) -> (r: Fx)
        requires
            o.raw != 0,
            -0x4000_0000_0000 <= self.raw <= 0x4000_0000_0000,
        ensures
            r.raw == fxdiv(self.raw as int, o.raw as int),
            -0x4000_0000_0000_0000 <= r.raw <= 0x4000_0000_0000_0000,
    {
        let num: i128 = (self.raw as i128) * 65536;
        let nneg: bool = num < 0;
        let dneg: bool = o.raw < 0;
        let nmag: u128 = if nneg {
            (-num) as u128
        } else {
            num as u128
        };
        let dmag: u128 = if dneg {
            (-(o.raw as i128)) as u128
        } else {
            (o.raw as i128) as u128
        };
        let q: u128 = nmag / dmag;
        proof {
            lemma_div_is_ordered(nmag as int, 0x4000_0000_0000_0000, dmag as int);
            assert(0x4000_0000_0000_0000int / dmag as int <= 0x4000_0000_0000_0000) by (nonlinear_arith)
                requires
                    dmag >= 1,
            ;
        }
        let signed: i128 = if nneg != dneg {
            -(q as i128)
        } else {
            q as i128
        };
        Fx { raw: signed as i64 }
    }

    /// Square root, rounded down: the raw result is the integer square root of
    /// `raw * 65536`.
    pub fn sqrt(self) -> (r: Fx)
        requires
            self.raw >= 0,
        ensures
            r.raw == fxsqrt(self.raw as int),
            is_sqrt(self.raw * 65536, r.raw as int),
            0 <= r.raw < 0x100_0000_0000,
    {
        let n: u128 = (self.raw as u128) * 65536;
        let root: u64 = isqrt_u128(n);
        proof {
            lemma_sqrt_unique(n as int, root as int);
        }
        Fx { raw: root as i64 }
    }
}

/// Integer square root by binary search: the greatest `r` with `r * r <= n`.
fn isqrt_u128(n: u128) -> (r: u64)
    requires
        n < 0x1_0000_0000_0000_0000_0000,
    ensures
        is_sqrt(n as int, r as int),
        r < 0x100_0000_0000,
{
    let mut lo: u64 = 0;
    let mut hi: u64 = 0x100_0000_0000;
    assert(0x100_0000_0000int * 0x100_0000_0000int == 0x1_0000_0000_0000_0000_0000int)
        by (nonlinear_arith);
    while lo + 1 < hi
        invariant
            lo < hi,
            hi <= 0x100_0000_0000,
            (lo as int) * (lo as int) <= n as int,
            (n as int) < (hi as int) * (hi as int),
        decreases hi - lo,
    {
        let mid: u64 = lo + (hi - lo) / 2;
        proof {
            lemma_mul_bounds(mid as int, mid as int, 0x100_0000_0000, 0x100_0000_0000);
        }
        let m2: u128 = (mid as u128) * (mid as u128);
        if m2 <= n {
            lo = mid;
        } else {
            hi = mid;
        }
    }
    lo
}

} // verus!
