//! The remainder of [`Bignum`]s by whole positive divisors.
use crate::bignum::add::{lemma_le_split, lemma_le_take_step};
use crate::bignum::utils::{copy_digits};
use crate::bignum::{Bignum, be_val, digits_ok, le_val, lemma_be_bounds, lemma_le_bounds, lemma_le_all_zero, lemma_pow10_adds, lemma_pow10_mono, lemma_value_scale, magnitude, pow10, value_at};
use vstd::prelude::*;

verus! {

/// Some digit of `s` is not zero.
pub open spec fn has_nonzero(s: Seq<u8>) -> bool {
    exists|i: int| 0 <= i < s.len() && s[i] != 0
}

/// A digit sequence has a positive value exactly when some digit is not zero.
pub(crate) proof fn lemma_nonzero_value(s: Seq<u8>)
    requires
        digits_ok(s),
    ensures
        has_nonzero(s) <==> le_val(s) > 0,
        has_nonzero(s) <==> be_val(s) > 0,
{
    lemma_le_bounds(s);
    lemma_be_bounds(s);
    if has_nonzero(s) {
        let i = choose|i: int| 0 <= i < s.len() && s[i] != 0;
        lemma_le_split(s, i);
        lemma_le_take_step(s, i);
        lemma_le_bounds(s.take(i));
        lemma_le_bounds(s.skip(i + 1));
        lemma_le_split(s.skip(i), 1);
        assert(s.skip(i).take(1) =~= seq![s[i]]);
        assert(s.skip(i).skip(1) =~= s.skip(i + 1));
        lemma_le_take_step(s.skip(i), 0);
        assert(s.skip(i).take(0) =~= Seq::<u8>::empty());
        lemma_pow10_mono(0, i as nat);
        lemma_pow10_mono(0, (i + 1) as nat);
        let p = pow10(i as nat);
        assert(le_val(s.skip(i)) == le_val(s.skip(i).take(1)) + pow10(1) * le_val(s.skip(i + 1)));
        assert(pow10(1) == 10);
        assert(le_val(s.skip(i).take(1)) == s[i] * pow10(0));
        assert(pow10(0) == 1);
        assert(le_val(s.skip(i)) >= 1);
        assert(p * le_val(s.skip(i)) >= p) by (nonlinear_arith)
            requires
                le_val(s.skip(i)) >= 1,
                p > 0,
        ;
        lemma_be_positive(s, i);
    } else {
        lemma_le_all_zero(s);
    }
}

/// A nonzero digit makes a reading most significant first positive.
proof fn lemma_be_positive(s: Seq<u8>, i: int)
    requires
        digits_ok(s),
        0 <= i < s.len(),
        s[i] != 0,
    ensures
        be_val(s) > 0,
    decreases i,
{
    let t = s.drop_first();
    lemma_be_bounds(t);
    lemma_pow10_mono(0, (s.len() - 1) as nat);
    let p = pow10((s.len() - 1) as nat);
    assert(s[0] * p >= 0) by (nonlinear_arith)
        requires
            s[0] >= 0,
            p > 0,
    ;
    if i == 0 {
        assert(s[0] * p >= p) by (nonlinear_arith)
            requires
                s[0] >= 1,
                p > 0,
        ;
    } else {
        lemma_be_positive(t, i - 1);
    }
}

/// Whether the digit vector holds a nonzero digit.
fn any_nonzero(v: &Vec<u8>) -> (r: bool)
    ensures
        r == has_nonzero(v@),
{
    for i in 0..v.len()
        invariant
            forall|j: int| 0 <= j < i ==> v@[j] == 0,
    {
        if v[i] != 0 {
            return true;
        }
    }
    false
}

/// Dividing `v` by the positive `d` leaves `v - q * d`, which is the remainder when it lies in
/// `[0, d)`.
proof fn lemma_rem_unique(v: int, d: int, q: int, x: int)
    requires
        d > 0,
        x == v - q * d,
        0 <= x < d,
    ensures
        x == v % d,
{
    vstd::arithmetic::div_mod::lemma_fundamental_div_mod_converse(v, d, q, x);
}

/// Ten to a larger power only for a larger exponent.
proof fn lemma_pow10_lt_converse(a: nat, b: nat)
    requires
        pow10(a) < pow10(b),
    ensures
        a < b,
{
    if a >= b {
        lemma_pow10_mono(b, a);
    }
}

/// Integer digits without trailing zeros are at least `10^(len - 1)`.
proof fn lemma_normalized_len(s: Seq<u8>)
    requires
        digits_ok(s),
        s.len() > 0,
        s.last() != 0,
    ensures
        le_val(s) >= pow10((s.len() - 1) as nat),
{
    let n = s.len() - 1;
    lemma_le_split(s, n);
    assert(s.skip(n) =~= seq![s[n]]);
    lemma_le_take_step(s, n);
    assert(s.take(n + 1) =~= s);
    lemma_le_bounds(s.take(n));
    lemma_pow10_mono(0, n as nat);
    let p = pow10(n as nat);
    assert(s[n] * p >= p) by (nonlinear_arith)
        requires
            s[n] >= 1,
            p > 0,
    ;
}

impl Bignum {
    /// A copy of the number.
    pub fn copy(&self) -> (r: Bignum)
        ensures
            r.is_neg == self.is_neg,
            r.int@ == self.int@,
            r.dec@ == self.dec@,
    {
        Bignum { is_neg: self.is_neg, int: copy_digits(&self.int), dec: copy_digits(&self.dec) }
    }

    /// Whether the number is greater than zero.
    pub fn is_positive(&self) -> (r: bool)
        requires
            self.wf(),
        ensures
            forall|k: nat| k >= self.dec@.len() ==> (r == (#[trigger] value_at(*self, k) > 0)),
    {
        proof {
            lemma_nonzero_value(self.int@);
            lemma_nonzero_value(self.dec@);
            assert forall|k: nat| k >= self.dec@.len() implies (!self.is_neg && (has_nonzero(
                self.int@,
            ) || has_nonzero(self.dec@))) == (#[trigger] value_at(*self, k) > 0) by {
                lemma_magnitude_sign(self.int@, self.dec@, k);
            }
        }
        !self.is_neg && (any_nonzero(&self.int) || any_nonzero(&self.dec))
    }

    /// Whether the number is less than zero.
    pub fn is_negative(&self) -> (r: bool)
        requires
            self.wf(),
        ensures
            forall|k: nat| k >= self.dec@.len() ==> (r == (#[trigger] value_at(*self, k) < 0)),
    {
        proof {
            lemma_nonzero_value(self.int@);
            lemma_nonzero_value(self.dec@);
            assert forall|k: nat| k >= self.dec@.len() implies (self.is_neg && (has_nonzero(
                self.int@,
            ) || has_nonzero(self.dec@))) == (#[trigger] value_at(*self, k) < 0) by {
                lemma_magnitude_sign(self.int@, self.dec@, k);
            }
        }
        self.is_neg && (any_nonzero(&self.int) || any_nonzero(&self.dec))
    }
}

/// A magnitude is positive exactly when one of its parts is.
pub(crate) proof fn lemma_magnitude_sign(ints: Seq<u8>, decs: Seq<u8>, k: nat)
    requires
        digits_ok(ints),
        digits_ok(decs),
        k >= decs.len(),
    ensures
        (le_val(ints) > 0 || be_val(decs) > 0) == (magnitude(ints, decs, k) > 0),
        magnitude(ints, decs, k) >= 0,
{
    lemma_le_bounds(ints);
    lemma_be_bounds(decs);
    lemma_pow10_mono(0, k);
    lemma_pow10_mono(0, (k - decs.len()) as nat);
    let a = le_val(ints);
    let b = be_val(decs);
    let p = pow10(k);
    let q = pow10((k - decs.len()) as nat);
    assert(a * p >= 0 && b * q >= 0) by (nonlinear_arith)
        requires
            a >= 0,
            b >= 0,
            p > 0,
            q > 0,
    ;
    assert(a > 0 ==> a * p > 0) by (nonlinear_arith)
        requires
            p > 0,
    ;
    assert(b > 0 ==> b * q > 0) by (nonlinear_arith)
        requires
            q > 0,
    ;
    assert(a == 0 ==> a * p == 0) by (nonlinear_arith);
    assert(b == 0 ==> b * q == 0) by (nonlinear_arith);
}

/// The positive part of `x`.
pub open spec fn pos_part(x: int) -> int {
    if x > 0 {
        x
    } else {
        0
    }
}

/// A difference computed at the common scale of its operands holds at any larger scale.
proof fn lemma_diff_at(r: Bignum, a: Bignum, b: Bignum, k: nat, j: nat)
    requires
        j == a.scale2(&b),
        r.dec@.len() <= j,
        j <= k,
        value_at(r, j) == value_at(a, j) - value_at(b, j),
    ensures
        value_at(r, k) == value_at(a, k) - value_at(b, k),
{
    let e = (k - j) as nat;
    lemma_value_scale(r, j, e);
    lemma_value_scale(a, j, e);
    lemma_value_scale(b, j, e);
    let p = pow10(e);
    let x = value_at(a, j);
    let y = value_at(b, j);
    assert((x - y) * p == x * p - y * p) by (nonlinear_arith);
}

/// A sum computed at the common scale of its operands holds at any larger scale.
proof fn lemma_sum_at(r: Bignum, a: Bignum, b: Bignum, k: nat, j: nat)
    requires
        j == a.scale2(&b),
        r.dec@.len() <= j,
        j <= k,
        value_at(r, j) == value_at(a, j) + value_at(b, j),
    ensures
        value_at(r, k) == value_at(a, k) + value_at(b, k),
{
    let e = (k - j) as nat;
    lemma_value_scale(r, j, e);
    lemma_value_scale(a, j, e);
    lemma_value_scale(b, j, e);
    let p = pow10(e);
    let x = value_at(a, j);
    let y = value_at(b, j);
    assert((x + y) * p == x * p + y * p) by (nonlinear_arith);
}

/// The value of a whole positive divisor at scale `k`.
proof fn lemma_whole_value(b: Bignum, k: nat)
    requires
        b.dec@.len() == 0,
        !b.is_neg,
    ensures
        value_at(b, k) == le_val(b.int@) * pow10(k),
{
    assert(be_val(b.dec@) == 0);
    let p = pow10(k);
    assert(0 * p == 0) by (nonlinear_arith);
}

/// The remainder of `lhs` by the whole positive `rhs`, found by subtracting `rhs` while the
/// result is positive, then adding it back while the result is negative.
pub fn single_skip_mod(lhs: Bignum, rhs: Bignum) -> (r: Bignum)
    requires
        lhs.wf(),
        rhs.wf(),
        rhs.dec@.len() == 0,
        !rhs.is_neg,
        le_val(rhs.int@) > 0,
    ensures
        r.wf(),
        r.dec@.len() <= lhs.dec@.len(),
        value_at(r, lhs.dec@.len()) == value_at(lhs, lhs.dec@.len()) % (le_val(rhs.int@) * pow10(
            lhs.dec@.len(),
        )),
        r.is_neg ==> value_at(r, lhs.dec@.len()) == 0,
        !lhs.is_neg ==> !r.is_neg,
{
    let ghost k = lhs.dec@.len();
    let ghost d = le_val(rhs.int@) * pow10(k);
    let ghost v = value_at(lhs, k);
    proof {
        lemma_pow10_mono(0, k);
        assert(d >= 1) by (nonlinear_arith)
            requires
                d == le_val(rhs.int@) * pow10(k),
                le_val(rhs.int@) >= 1,
                pow10(k) >= 1,
        ;
        lemma_whole_value(rhs, k);
    }
    let mut result = lhs;
    let ghost mut q: int = 0;
    while result.is_positive()
        invariant
            result.wf(),
            rhs.wf(),
            rhs.dec@.len() == 0,
            !rhs.is_neg,
            result.dec@.len() <= k,
            d >= 1,
            value_at(rhs, k) == d,
            value_at(result, k) == v - q * d,
            !lhs.is_neg ==> (result.is_neg ==> le_val(result.int@) > 0 || be_val(result.dec@) > 0),
        decreases pos_part(value_at(result, k)),
    {
        let ghost before = result;
        assert(value_at(result, k) > 0);
        proof {
            lemma_magnitude_sign(result.int@, result.dec@, k);
        }
        result = result.sub(rhs.copy());
        proof {
            lemma_diff_at(result, before, rhs, k, before.scale2(&rhs));
            q = q + 1;
            assert(v - (q - 1) * d - d == v - q * d) by (nonlinear_arith);
        }
    }
    // an empty digit vector stands for zero
    if result.int.len() == 0 && result.dec.len() == 0 {
        proof {
            assert(le_val(result.int@) == 0 && be_val(result.dec@) == 0);
            let p = pow10(k);
            assert(0 * p == 0) by (nonlinear_arith);
            lemma_rem_unique(v, d, q, 0);
        }
        return result;
    }
    while result.is_negative()
        invariant
            result.wf(),
            rhs.wf(),
            rhs.dec@.len() == 0,
            !rhs.is_neg,
            result.dec@.len() <= k,
            d >= 1,
            value_at(rhs, k) == d,
            value_at(result, k) == v - q * d,
            value_at(result, k) < d,
            !lhs.is_neg ==> (result.is_neg ==> le_val(result.int@) > 0 || be_val(result.dec@) > 0),
        decreases pos_part(-value_at(result, k)),
    {
        let ghost before = result;
        assert(value_at(result, k) < 0);
        result = result.add(rhs.copy());
        proof {
            lemma_sum_at(result, before, rhs, k, before.scale2(&rhs));
            q = q - 1;
            assert(v - (q + 1) * d + d == v - q * d) by (nonlinear_arith);
        }
    }
    proof {
        lemma_rem_unique(v, d, q, value_at(result, k));
        lemma_magnitude_sign(result.int@, result.dec@, k);
    }
    result
}

/// The remainder of `lhs` by the whole positive `rhs`, found by subtracting `rhs` times a
/// multiplier that doubles every step while the result is positive, then adding `rhs` back while
/// the result is negative.
pub fn binary_skip_mod(lhs: Bignum, rhs: Bignum) -> (r: Bignum)
    requires
        lhs.wf(),
        rhs.wf(),
        rhs.dec@.len() == 0,
        !rhs.is_neg,
        le_val(rhs.int@) > 0,
        rhs.int@.len() + lhs.int@.len() + lhs.dec@.len() + 1 <= isize::MAX,
    ensures
        r.wf(),
        r.dec@.len() <= lhs.dec@.len(),
        value_at(r, lhs.dec@.len()) == value_at(lhs, lhs.dec@.len()) % (le_val(rhs.int@) * pow10(
            lhs.dec@.len(),
        )),
        r.is_neg ==> value_at(r, lhs.dec@.len()) == 0,
        !lhs.is_neg ==> !r.is_neg,
{
    let ghost k = lhs.dec@.len();
    let ghost d = le_val(rhs.int@) * pow10(k);
    let ghost v = value_at(lhs, k);
    let ghost big = pow10((lhs.int@.len() + k) as nat);
    proof {
        lemma_pow10_mono(0, k);
        assert(d >= 1) by (nonlinear_arith)
            requires
                d == le_val(rhs.int@) * pow10(k),
                le_val(rhs.int@) >= 1,
                pow10(k) >= 1,
        ;
        lemma_whole_value(rhs, k);
        // the value of lhs stays below 10^(int digits + fractional digits)
        lemma_le_bounds(lhs.int@);
        lemma_be_bounds(lhs.dec@);
        lemma_pow10_adds(lhs.int@.len(), k);
        assert((k - lhs.dec@.len()) as nat == 0);
        assert(pow10(0) == 1);
        let li = le_val(lhs.int@);
        let pk = pow10(k);
        assert(li * pk + be_val(lhs.dec@) < pow10(lhs.int@.len()) * pk) by (nonlinear_arith)
            requires
                0 <= li < pow10(lhs.int@.len()),
                0 <= be_val(lhs.dec@) < pk,
        ;
        assert(v < big);
    }
    let mut result = lhs;
    let mut coeff = Bignum { is_neg: false, int: vec![1u8], dec: Vec::new() };
    let multiplier = Bignum { is_neg: false, int: vec![2u8], dec: Vec::new() };
    proof {
        assert(coeff.int@ =~= seq![1u8]);
        assert(multiplier.int@ =~= seq![2u8]);
        crate::bignum::add::lemma_single_digit(1u8);
        crate::bignum::add::lemma_single_digit(2u8);
    }
    while result.is_positive()
        invariant
            result.wf(),
            rhs.wf(),
            coeff.wf(),
            multiplier.wf(),
            rhs.dec@.len() == 0,
            !rhs.is_neg,
            coeff.dec@.len() == 0,
            !coeff.is_neg,
            coeff.int@.len() > 0 && coeff.int@.last() != 0,
            multiplier.dec@.len() == 0,
            !multiplier.is_neg,
            multiplier.int@.len() == 1,
            le_val(multiplier.int@) == 2,
            le_val(coeff.int@) >= 1,
            result.dec@.len() <= k,
            d >= 1,
            d == le_val(rhs.int@) * pow10(k),
            value_at(rhs, k) == d,
            value_at(result, k) == v - (le_val(coeff.int@) - 1) * d,
            !lhs.is_neg ==> (result.is_neg ==> le_val(result.int@) > 0 || be_val(result.dec@) > 0),
            v < big,
            big == pow10((lhs.int@.len() + k) as nat),
            rhs.int@.len() + lhs.int@.len() + k + 1 <= isize::MAX,
        decreases pos_part(value_at(result, k)),
    {
        let ghost before = result;
        assert(value_at(result, k) > 0);
        proof {
            lemma_magnitude_sign(result.int@, result.dec@, k);
        }
        let ghost c = le_val(coeff.int@);
        proof {
            // the multiplier never outgrows the value of lhs, so neither do its digits
            assert(v - (c - 1) * d > 0);
            assert(c <= v) by (nonlinear_arith)
                requires
                    v - (c - 1) * d > 0,
                    d >= 1,
                    c >= 1,
            ;
            lemma_normalized_len(coeff.int@);
            lemma_pow10_lt_converse((coeff.int@.len() - 1) as nat, (lhs.int@.len() + k) as nat);
        }
        let step = rhs.copy().mul(coeff.copy());
        proof {
            lemma_whole_value(coeff, 0);
            lemma_whole_value(rhs, 0);
            assert(pow10(0) == 1);
            assert(step.dec@.len() == 0);
            assert(!step.is_neg);
            assert(value_at(step, 0) == le_val(rhs.int@) * c);
            assert(le_val(step.int@) == le_val(rhs.int@) * c) by {
                assert(be_val(step.dec@) == 0);
                assert(le_val(step.int@) * 1 == le_val(step.int@));
            }
            lemma_whole_value(step, k);
            assert(value_at(step, k) == le_val(rhs.int@) * c * pow10(k));
            assert(le_val(rhs.int@) * c * pow10(k) == c * d) by (nonlinear_arith)
                requires
                    d == le_val(rhs.int@) * pow10(k),
            ;
        }
        result = result.sub(step);
        proof {
            lemma_diff_at(result, before, step, k, before.scale2(&step));
        }
        coeff = coeff.mul(multiplier.copy());
        proof {
            lemma_whole_value(coeff, 0);
            assert(pow10(0) == 1);
            assert(value_at(coeff, 0) == le_val(coeff.int@));
            assert(le_val(coeff.int@) == c * 2);
            assert(coeff.int@.len() > 0) by {
                if coeff.int@.len() == 0 {
                    assert(le_val(coeff.int@) == 0);
                }
            }
            assert(v - (c - 1) * d - c * d == v - (c * 2 - 1) * d) by (nonlinear_arith);
            assert(c * d >= 1) by (nonlinear_arith)
                requires
                    c >= 1,
                    d >= 1,
            ;
        }
    }
    let ghost q: int = le_val(coeff.int@) - 1;
    // an empty digit vector stands for zero
    if result.int.len() == 0 && result.dec.len() == 0 {
        proof {
            assert(le_val(result.int@) == 0 && be_val(result.dec@) == 0);
            let p = pow10(k);
            assert(0 * p == 0) by (nonlinear_arith);
            lemma_rem_unique(v, d, q, 0);
        }
        return result;
    }
    let ghost mut q = q;
    while result.is_negative()
        invariant
            result.wf(),
            rhs.wf(),
            rhs.dec@.len() == 0,
            !rhs.is_neg,
            result.dec@.len() <= k,
            d >= 1,
            value_at(rhs, k) == d,
            value_at(result, k) == v - q * d,
            value_at(result, k) < d,
            !lhs.is_neg ==> (result.is_neg ==> le_val(result.int@) > 0 || be_val(result.dec@) > 0),
        decreases pos_part(-value_at(result, k)),
    {
        let ghost before = result;
        assert(value_at(result, k) < 0);
        result = result.add(rhs.copy());
        proof {
            lemma_sum_at(result, before, rhs, k, before.scale2(&rhs));
            q = q - 1;
            assert(v - (q + 1) * d + d == v - q * d) by (nonlinear_arith);
        }
    }
    proof {
        lemma_rem_unique(v, d, q, value_at(result, k));
        lemma_magnitude_sign(result.int@, result.dec@, k);
    }
    result
}

impl Bignum {
    /// The remainder of `self` by the whole positive number `rhs`, with the sign of `rhs`.
    pub fn rem(self, rhs: Bignum) -> (r: Bignum)
        requires
            self.wf(),
            rhs.wf(),
            rhs.dec@.len() == 0,
            !rhs.is_neg,
            le_val(rhs.int@) > 0,
            rhs.int@.len() + self.int@.len() + self.dec@.len() + 1 <= isize::MAX,
        ensures
            r.wf(),
            r.dec@.len() <= self.dec@.len(),
            value_at(r, self.dec@.len()) == value_at(self, self.dec@.len()) % (le_val(rhs.int@)
                * pow10(self.dec@.len())),
            r.is_neg ==> value_at(r, self.dec@.len()) == 0,
            !self.is_neg ==> !r.is_neg,
    {
        binary_skip_mod(self, rhs)
    }
}

} // verus!
