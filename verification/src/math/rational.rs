//! Exact arithmetic on rationals kept in lowest terms.
//!
//! A result is made from an exact fraction by dividing out the gcd of its numerator and
//! denominator; it exists when the reduced numerator and denominator fit the representation.
use crate::grammar::Rational;
use crate::math::gcd::{gcd_u128, lemma_gcd_reduced, spec_gcd};
use vstd::arithmetic::div_mod::{lemma_div_multiples_vanish, lemma_fundamental_div_mod};
use vstd::prelude::*;

verus! {

/// `n / d` in lowest terms: both divided by the gcd of `|n|` and `d`.
pub open spec fn reduce(n: int, d: int) -> (int, int) {
    let g = spec_gcd(vstd::math::abs(n) as nat, d as nat) as int;
    (n / g, d / g)
}

/// The fraction `n / d` (with `d > 0`) as a rational, when its lowest terms fit.
pub open spec fn make_rat(n: int, d: int) -> Option<Rational> {
    let (p, q) = reduce(n, d);
    if i64::MIN < p <= i64::MAX && 0 < q <= u64::MAX {
        Some(Rational { num: p as i64, den: q as u64 })
    } else {
        None
    }
}

/// `a - b`, when its intermediate numerator fits 128 bits and its lowest terms fit.
pub open spec fn rat_sub(a: Rational, b: Rational) -> Option<Rational> {
    let n = a.num * b.den - b.num * a.den;
    if i128::MIN <= n <= i128::MAX {
        make_rat(n, a.den * b.den)
    } else {
        None
    }
}

/// `a + b`, when its intermediate numerator fits 128 bits and its lowest terms fit.
pub open spec fn rat_add(a: Rational, b: Rational) -> Option<Rational> {
    let n = a.num * b.den + b.num * a.den;
    if i128::MIN <= n <= i128::MAX {
        make_rat(n, a.den * b.den)
    } else {
        None
    }
}

/// `a * b`, when its lowest terms fit.
pub open spec fn rat_mul(a: Rational, b: Rational) -> Option<Rational> {
    make_rat(a.num * b.num, a.den * b.den)
}

/// `a / b` for `b != 0`, when its lowest terms fit.
pub open spec fn rat_div(a: Rational, b: Rational) -> Option<Rational> {
    if b.num > 0 {
        make_rat(a.num * b.den, a.den * b.num)
    } else {
        make_rat(-(a.num * b.den), a.den * (-b.num))
    }
}

/// The remainder of `x` by `y` truncated toward zero: it takes the sign of `x`.
pub open spec fn trunc_rem(x: int, y: int) -> int {
    let m: int = (vstd::math::abs(x) % vstd::math::abs(y)) as int;
    if x >= 0 {
        m
    } else {
        -m
    }
}

/// A rational made from a fraction has the fraction's value: `x.num / x.den == n / d`.
pub proof fn lemma_make_rat_value(n: int, d: int)
    requires
        d > 0,
    ensures
        make_rat(n, d) matches Some(x) ==> x.num * d == n * x.den,
{
    if make_rat(n, d) is Some {
        let m: int = vstd::math::abs(n) as int;
        let g = spec_gcd(m as nat, d as nat) as int;
        lemma_gcd_reduced(m as nat, d as nat);
        lemma_fundamental_div_mod(m, g);
        lemma_fundamental_div_mod(d, g);
        let a: int = m / g;
        let b = d / g;
        if n >= 0 {
            lemma_div_multiples_vanish(a, g);
            assert(n == g * a);
        } else {
            assert(n == g * (-a)) by (nonlinear_arith)
                requires
                    m == g * a,
                    n < 0,
                    m == -n,
            ;
            lemma_div_multiples_vanish(-a, g);
        }
        lemma_div_multiples_vanish(b, g);
        assert((n / g) * d == n * (d / g)) by (nonlinear_arith)
            requires
                n == g * (n / g),
                d == g * (d / g),
        ;
    }
}

/// The magnitude of an `i128` as a `u128`.
fn magnitude(n: i128) -> (r: u128)
    ensures
        r == vstd::math::abs(n as int),
{
    if n >= 0 {
        n as u128
    } else {
        ((-(n + 1)) as u128) + 1
    }
}

/// The fraction `n / d` in lowest terms, if that fits a rational.
pub fn from_fraction(n: i128, d: u128) -> (r: Option<Rational>)
    requires
        d > 0,
    ensures
        r == make_rat(n as int, d as int),
        r matches Some(x) ==> x.wf(),
{
    let a = magnitude(n);
    let g = gcd_u128(a, d);
    proof {
        lemma_gcd_reduced(a as nat, d as nat);
    }
    let qa = a / g;
    let qd = d / g;
    let ghost gi = g as int;
    proof {
        lemma_fundamental_div_mod(a as int, gi);
        lemma_fundamental_div_mod(d as int, gi);
        if n >= 0 {
            assert(n as int == gi * qa);
            lemma_div_multiples_vanish(qa as int, gi);
        } else {
            assert(a as int == gi * qa);
            assert(n as int == gi * (-(qa as int))) by (nonlinear_arith)
                requires
                    a as int == gi * qa,
                    n as int == -(a as int),
            ;
            lemma_div_multiples_vanish(-(qa as int), gi);
        }
        lemma_div_multiples_vanish(qd as int, gi);
        assert(qd > 0) by (nonlinear_arith)
            requires
                d as int == gi * qd,
                d > 0,
                gi > 0,
        ;
    }
    if qa <= 0x7fff_ffff_ffff_ffff && qd <= 0xffff_ffff_ffff_ffff {
        let m = qa as i64;
        let num = if n >= 0 {
            m
        } else {
            -m
        };
        let r = Rational { num, den: qd as u64 };
        assert(vstd::math::abs(num as int) == qa);
        Some(r)
    } else {
        None
    }
}

impl Rational {
    /// `-self`.
    pub fn neg(&self) -> (r: Rational)
        requires
            self.wf(),
        ensures
            r.wf(),
            r.num == -self.num,
            r.den == self.den,
    {
        Rational { num: -self.num, den: self.den }
    }

    /// `self - other` in lowest terms, or `None` when it does not fit.
    pub fn checked_sub(&self, other: &Rational) -> (r: Option<Rational>)
        requires
            self.wf(),
            other.wf(),
        ensures
            r == rat_sub(*self, *other),
            r matches Some(x) ==> x.wf(),
    {
        proof {
            crate::grammar::lemma_product_fits(self.num, other.den);
            crate::grammar::lemma_product_fits(other.num, self.den);
            assert(self.den * other.den <= u128::MAX) by (nonlinear_arith)
                requires
                    self.den <= u64::MAX,
                    other.den <= u64::MAX,
            ;
            assert(self.den * other.den > 0) by (nonlinear_arith)
                requires
                    self.den > 0,
                    other.den > 0,
            ;
        }
        let x = (self.num as i128) * (other.den as i128);
        let y = (other.num as i128) * (self.den as i128);
        let d = (self.den as u128) * (other.den as u128);
        match x.checked_sub(y) {
            Some(n) => from_fraction(n, d),
            None => None,
        }
    }

    /// `self + other` in lowest terms, or `None` when it does not fit.
    pub fn checked_add(&self, other: &Rational) -> (r: Option<Rational>)
        requires
            self.wf(),
            other.wf(),
        ensures
            r == rat_add(*self, *other),
            r matches Some(x) ==> x.wf(),
    {
        proof {
            crate::grammar::lemma_product_fits(self.num, other.den);
            crate::grammar::lemma_product_fits(other.num, self.den);
            assert(self.den * other.den <= u128::MAX) by (nonlinear_arith)
                requires
                    self.den <= u64::MAX,
                    other.den <= u64::MAX,
            ;
            assert(self.den * other.den > 0) by (nonlinear_arith)
                requires
                    self.den > 0,
                    other.den > 0,
            ;
        }
        let x = (self.num as i128) * (other.den as i128);
        let y = (other.num as i128) * (self.den as i128);
        let d = (self.den as u128) * (other.den as u128);
        match x.checked_add(y) {
            Some(n) => from_fraction(n, d),
            None => None,
        }
    }

    /// `self * other` in lowest terms, or `None` when it does not fit.
    pub fn checked_mul(&self, other: &Rational) -> (r: Option<Rational>)
        requires
            self.wf(),
            other.wf(),
        ensures
            r == rat_mul(*self, *other),
            r matches Some(x) ==> x.wf(),
    {
        proof {
            assert(i128::MIN <= self.num * other.num <= i128::MAX) by (nonlinear_arith)
                requires
                    -0x8000_0000_0000_0000 <= self.num <= 0x7fff_ffff_ffff_ffff,
                    -0x8000_0000_0000_0000 <= other.num <= 0x7fff_ffff_ffff_ffff,
            ;
            assert(0 < self.den * other.den <= u128::MAX) by (nonlinear_arith)
                requires
                    0 < self.den <= u64::MAX,
                    0 < other.den <= u64::MAX,
            ;
        }
        let n = (self.num as i128) * (other.num as i128);
        let d = (self.den as u128) * (other.den as u128);
        from_fraction(n, d)
    }

    /// `self / other` in lowest terms, or `None` when it does not fit.
    pub fn checked_div(&self, other: &Rational) -> (r: Option<Rational>)
        requires
            self.wf(),
            other.wf(),
            other.num != 0,
        ensures
            r == rat_div(*self, *other),
            r matches Some(x) ==> x.wf(),
    {
        proof {
            crate::grammar::lemma_product_fits(self.num, other.den);
            assert(-0x7fff_ffff_ffff_ffff_ffff_ffff_ffff_ffff <= self.num * other.den) by (
            nonlinear_arith)
                requires
                    -0x7fff_ffff_ffff_ffff <= self.num <= 0x7fff_ffff_ffff_ffff,
                    0 <= other.den <= u64::MAX,
            ;
            assert(0 < self.den * vstd::math::abs(other.num as int) <= u128::MAX) by (
            nonlinear_arith)
                requires
                    0 < self.den <= u64::MAX,
                    0 < vstd::math::abs(other.num as int) <= u64::MAX,
            ;
        }
        let x = (self.num as i128) * (other.den as i128);
        if other.num > 0 {
            let d = (self.den as u128) * (other.num as u128);
            from_fraction(x, d)
        } else {
            let d = (self.den as u128) * ((-other.num) as u128);
            from_fraction(-x, d)
        }
    }
}

/// The truncated remainder of two integers, `x % y` with the sign of `x`.
pub fn int_rem(x: i64, y: i64) -> (r: i64)
    requires
        x != i64::MIN,
        y != i64::MIN,
        y != 0,
    ensures
        r == trunc_rem(x as int, y as int),
{
    let xa: u64 = if x >= 0 {
        x as u64
    } else {
        (-x) as u64
    };
    let ya: u64 = if y >= 0 {
        y as u64
    } else {
        (-y) as u64
    };
    let m = xa % ya;
    assert(m < ya);
    if x >= 0 {
        m as i64
    } else {
        -(m as i64)
    }
}

} // verus!
