//! Subtraction and magnitude comparison of [`Bignum`]s.
use crate::bignum::add::{lemma_be_split, lemma_be_sub_step, lemma_le_split, lemma_le_take_step};
use crate::bignum::utils::{abs, copy_digits, lemma_strip_trailing, normalize_vecs, strip_trailing, truncate_zeros};
use crate::bignum::{Bignum, be_val, digits_ok, le_val, lemma_be_bounds, lemma_be_zeros, lemma_le_bounds, lemma_le_zeros, lemma_pow10_adds, lemma_pow10_mono, magnitude, pow10, value_at};
use vstd::prelude::*;

verus! {

/// Equal-length digit sequences read least significant first: the highest differing digit
/// decides which value is larger.
proof fn lemma_le_first_diff(x: Seq<u8>, y: Seq<u8>, i: int)
    requires
        x.len() == y.len(),
        0 <= i < x.len(),
        digits_ok(x),
        digits_ok(y),
        forall|j: int| i < j < x.len() ==> x[j] == y[j],
        x[i] > y[i],
    ensures
        le_val(x) > le_val(y),
{
    lemma_le_split(x, i + 1);
    lemma_le_split(y, i + 1);
    assert(x.skip(i + 1) =~= y.skip(i + 1));
    lemma_le_take_step(x, i);
    lemma_le_take_step(y, i);
    lemma_le_bounds(x.take(i));
    lemma_le_bounds(y.take(i));
    let p = pow10(i as nat);
    assert(x[i] * p >= (y[i] + 1) * p) by (nonlinear_arith)
        requires
            x[i] >= y[i] + 1,
            p > 0,
    ;
    assert((y[i] + 1) * p == y[i] * p + p) by (nonlinear_arith);
}

/// Equal-length digit sequences read most significant first: the first differing digit decides
/// which value is larger.
proof fn lemma_be_first_diff(x: Seq<u8>, y: Seq<u8>, i: int)
    requires
        x.len() == y.len(),
        0 <= i < x.len(),
        digits_ok(x),
        digits_ok(y),
        forall|j: int| 0 <= j < i ==> x[j] == y[j],
        x[i] > y[i],
    ensures
        be_val(x) > be_val(y),
{
    let n = x.len() as int;
    lemma_be_split(x, i);
    lemma_be_split(y, i);
    assert(x.subrange(0, i) =~= y.subrange(0, i));
    lemma_be_sub_step(x, i, n);
    lemma_be_sub_step(y, i, n);
    assert(x.subrange(i, n) =~= x.subrange(i, x.len() as int));
    assert(y.subrange(i, n) =~= y.subrange(i, y.len() as int));
    lemma_be_bounds(x.subrange(i + 1, n));
    lemma_be_bounds(y.subrange(i + 1, n));
    let p = pow10((n - i - 1) as nat);
    assert(x[i] * p >= (y[i] + 1) * p) by (nonlinear_arith)
        requires
            x[i] >= y[i] + 1,
            p > 0,
    ;
    assert((y[i] + 1) * p == y[i] * p + p) by (nonlinear_arith);
}

/// How two magnitudes compare.
pub enum MagnitudeOrder {
    Less,
    Equal,
    Greater,
}

/// The fractional part of a number scaled by `10^k` stays below `10^k`.
proof fn lemma_dec_part_bound(dec: Seq<u8>, k: nat)
    requires
        digits_ok(dec),
        k >= dec.len(),
    ensures
        0 <= be_val(dec) * pow10((k - dec.len()) as nat) < pow10(k),
{
    lemma_be_bounds(dec);
    lemma_pow10_adds(dec.len(), (k - dec.len()) as nat);
    let q = pow10((k - dec.len()) as nat);
    lemma_pow10_mono(0, (k - dec.len()) as nat);
    assert(be_val(dec) * q < pow10(dec.len()) * q) by (nonlinear_arith)
        requires
            be_val(dec) < pow10(dec.len()),
            q > 0,
    ;
    assert(be_val(dec) * q >= 0) by (nonlinear_arith)
        requires
            be_val(dec) >= 0,
            q > 0,
    ;
}

/// Compares the magnitudes of `a` and `b`: integer digits from the most significant down, then
/// fractional digits from the tenths on.
pub fn compare_magnitude(a: &Bignum, b: &Bignum) -> (r: MagnitudeOrder)
    requires
        a.wf(),
        b.wf(),
    ensures
        (r is Greater) == (magnitude(a.int@, a.dec@, a.scale2(b)) > magnitude(
            b.int@,
            b.dec@,
            a.scale2(b),
        )),
        (r is Less) == (magnitude(a.int@, a.dec@, a.scale2(b)) < magnitude(
            b.int@,
            b.dec@,
            a.scale2(b),
        )),
{
    let ghost k = a.scale2(b);
    let (ai, bi) = normalize_vecs(copy_digits(&a.int), copy_digits(&b.int));
    let (ad, bd) = normalize_vecs(copy_digits(&a.dec), copy_digits(&b.dec));
    proof {
        lemma_le_zeros(a.int@, (ai@.len() - a.int@.len()) as nat);
        lemma_le_zeros(b.int@, (bi@.len() - b.int@.len()) as nat);
        lemma_be_zeros(a.dec@, (ad@.len() - a.dec@.len()) as nat);
        lemma_be_zeros(b.dec@, (bd@.len() - b.dec@.len()) as nat);
        assert(ad@.len() == k);
        assert forall|j: int| 0 <= j < ai@.len() implies #[trigger] ai@[j] < 10 by {
            if j >= a.int@.len() {
                assert(ai@[j] == 0);
            }
        }
        assert forall|j: int| 0 <= j < bi@.len() implies #[trigger] bi@[j] < 10 by {
            if j >= b.int@.len() {
                assert(bi@[j] == 0);
            }
        }
        assert forall|j: int| 0 <= j < ad@.len() implies #[trigger] ad@[j] < 10 by {
            if j >= a.dec@.len() {
                assert(ad@[j] == 0);
            }
        }
        assert forall|j: int| 0 <= j < bd@.len() implies #[trigger] bd@[j] < 10 by {
            if j >= b.dec@.len() {
                assert(bd@[j] == 0);
            }
        }
        lemma_dec_part_bound(a.dec@, k);
        lemma_dec_part_bound(b.dec@, k);
    }
    let ghost ma = magnitude(a.int@, a.dec@, k);
    let ghost mb = magnitude(b.int@, b.dec@, k);
    let ghost pk = pow10(k);
    let ghost la = le_val(ai@);
    let ghost lb = le_val(bi@);
    let ghost da = be_val(ad@);
    let ghost db = be_val(bd@);
    assert(ma == la * pk + da);
    assert(mb == lb * pk + db);
    let n = ai.len();
    let mut i = n;
    while i > 0
        invariant
            i <= n,
            n == ai@.len(),
            n == bi@.len(),
            forall|j: int| i <= j < n ==> ai@[j] == bi@[j],
            digits_ok(ai@),
            digits_ok(bi@),
            la == le_val(ai@),
            lb == le_val(bi@),
            pk > 0,
            ma == la * pk + da,
            mb == lb * pk + db,
            k == a.scale2(b),
            ma == magnitude(a.int@, a.dec@, k),
            mb == magnitude(b.int@, b.dec@, k),
            0 <= da < pk,
            0 <= db < pk,
        decreases i,
    {
        i -= 1;
        if ai[i] > bi[i] {
            proof {
                lemma_le_first_diff(ai@, bi@, i as int);
                assert(la * pk >= (lb + 1) * pk) by (nonlinear_arith)
                    requires
                        la >= lb + 1,
                        pk > 0,
                ;
                assert((lb + 1) * pk == lb * pk + pk) by (nonlinear_arith);
            }
            return MagnitudeOrder::Greater;
        }
        if ai[i] < bi[i] {
            proof {
                lemma_le_first_diff(bi@, ai@, i as int);
                assert(lb * pk >= (la + 1) * pk) by (nonlinear_arith)
                    requires
                        lb >= la + 1,
                        pk > 0,
                ;
                assert((la + 1) * pk == la * pk + pk) by (nonlinear_arith);
            }
            return MagnitudeOrder::Less;
        }
    }
    assert(ai@ =~= bi@);
    let m = ad.len();
    for j in 0..m
        invariant
            m == ad@.len(),
            m == bd@.len(),
            forall|l: int| 0 <= l < j ==> ad@[l] == bd@[l],
            la == lb,
            digits_ok(ad@),
            digits_ok(bd@),
            da == be_val(ad@),
            db == be_val(bd@),
            ma == la * pk + da,
            mb == lb * pk + db,
            k == a.scale2(b),
            ma == magnitude(a.int@, a.dec@, k),
            mb == magnitude(b.int@, b.dec@, k),
    {
        if ad[j] > bd[j] {
            proof {
                lemma_be_first_diff(ad@, bd@, j as int);
            }
            return MagnitudeOrder::Greater;
        }
        if ad[j] < bd[j] {
            proof {
                lemma_be_first_diff(bd@, ad@, j as int);
            }
            return MagnitudeOrder::Less;
        }
    }
    assert(ad@ =~= bd@);
    MagnitudeOrder::Equal
}

/// Subtracts the fractional digits `small` from the equally long `big`. Returns the digits of
/// the difference and the borrow out of the tenths digit.
fn sub_dec_digits(big: Vec<u8>, small: &Vec<u8>) -> (r: (Vec<u8>, u8))
    requires
        small@.len() == big@.len(),
        digits_ok(big@),
        digits_ok(small@),
    ensures
        r.0@.len() == big@.len(),
        digits_ok(r.0@),
        r.1 <= 1,
        be_val(r.0@) - r.1 * pow10(big@.len()) == be_val(big@) - be_val(small@),
{
    let ghost bg = big@;
    let ghost sm = small@;
    let n = big.len();
    let mut res = big;
    let mut carry: u8 = 0;
    let mut i = n;
    assert(res@.subrange(n as int, n as int) =~= Seq::<u8>::empty());
    assert(bg.subrange(n as int, n as int) =~= Seq::<u8>::empty());
    assert(sm.subrange(n as int, n as int) =~= Seq::<u8>::empty());
    assert(pow10(0) == 1);
    while i > 0
        invariant
            res@.len() == n,
            n == bg.len(),
            n == sm.len(),
            sm == small@,
            i <= n,
            carry <= 1,
            digits_ok(bg),
            digits_ok(sm),
            digits_ok(res@),
            forall|j: int| 0 <= j < i ==> res@[j] == bg[j],
            be_val(res@.subrange(i as int, n as int)) - carry * pow10((n - i) as nat) == be_val(
                bg.subrange(i as int, n as int),
            ) - be_val(sm.subrange(i as int, n as int)),
        decreases i,
    {
        i -= 1;
        let ghost old_res = res@;
        let ghost c0 = carry as int;
        let t: i16 = res[i] as i16 - small[i] as i16 - carry as i16;
        let d: u8;
        if t < 0 {
            carry = 1;
            d = (t + 10) as u8;
        } else {
            carry = 0;
            d = t as u8;
        }
        res.set(i, d);
        proof {
            let ii = i as int;
            let p = pow10((n - i - 1) as nat);
            assert(pow10((n - i) as nat) == 10 * p);
            lemma_be_sub_step(res@, ii, n as int);
            lemma_be_sub_step(bg, ii, n as int);
            lemma_be_sub_step(sm, ii, n as int);
            assert(res@.subrange(ii + 1, n as int) =~= old_res.subrange(ii + 1, n as int));
            let dd = res@[ii] as int;
            let c = carry as int;
            assert(dd - 10 * c == bg[ii] - sm[ii] - c0);
            assert(dd * p - c * (10 * p) == bg[ii] * p - sm[ii] * p - c0 * p) by (nonlinear_arith)
                requires
                    dd - 10 * c == bg[ii] - sm[ii] - c0,
            ;
        }
    }
    assert(res@.subrange(0, n as int) =~= res@);
    assert(bg.subrange(0, n as int) =~= bg);
    assert(sm.subrange(0, n as int) =~= sm);
    (res, carry)
}

/// Subtracts the integer digits `small` and an incoming `borrow` from the equally long `big`.
/// Returns the digits of the difference and the borrow out of the highest digit.
fn sub_int_digits(big: Vec<u8>, small: &Vec<u8>, borrow: u8) -> (r: (Vec<u8>, u8))
    requires
        small@.len() == big@.len(),
        digits_ok(big@),
        digits_ok(small@),
        borrow <= 1,
    ensures
        r.0@.len() == big@.len(),
        digits_ok(r.0@),
        r.1 <= 1,
        le_val(r.0@) - r.1 * pow10(big@.len()) == le_val(big@) - le_val(small@) - borrow,
{
    let ghost bg = big@;
    let ghost sm = small@;
    let ghost c0 = borrow as int;
    let n = big.len();
    let mut res = big;
    let mut carry = borrow;
    assert(res@.take(0) =~= Seq::<u8>::empty());
    assert(bg.take(0) =~= Seq::<u8>::empty());
    assert(sm.take(0) =~= Seq::<u8>::empty());
    assert(pow10(0) == 1);
    for i in 0..n
        invariant
            res@.len() == n,
            n == bg.len(),
            n == sm.len(),
            sm == small@,
            carry <= 1,
            digits_ok(bg),
            digits_ok(sm),
            digits_ok(res@),
            forall|j: int| i <= j < n ==> res@[j] == bg[j],
            le_val(res@.take(i as int)) - carry * pow10(i as nat) == le_val(bg.take(i as int))
                - le_val(sm.take(i as int)) - c0,
    {
        let ghost old_res = res@;
        let ghost cin = carry as int;
        let t: i16 = res[i] as i16 - small[i] as i16 - carry as i16;
        let d: u8;
        if t < 0 {
            carry = 1;
            d = (t + 10) as u8;
        } else {
            carry = 0;
            d = t as u8;
        }
        res.set(i, d);
        proof {
            let ii = i as int;
            let p = pow10(i as nat);
            assert(pow10((i + 1) as nat) == 10 * p);
            lemma_le_take_step(res@, ii);
            lemma_le_take_step(bg, ii);
            lemma_le_take_step(sm, ii);
            assert(res@.take(ii) =~= old_res.take(ii));
            let dd = res@[ii] as int;
            let c = carry as int;
            assert(dd - 10 * c == bg[ii] - sm[ii] - cin);
            assert(dd * p - c * (10 * p) == bg[ii] * p - sm[ii] * p - cin * p) by (nonlinear_arith)
                requires
                    dd - 10 * c == bg[ii] - sm[ii] - cin,
            ;
        }
    }
    assert(res@.take(n as int) =~= res@);
    assert(bg.take(n as int) =~= bg);
    assert(sm.take(n as int) =~= sm);
    (res, carry)
}

/// Removing trailing zeros keeps the value of integer digits, and of fractional digits at any
/// scale covering them.
pub(crate) proof fn lemma_truncate_keeps_magnitude(ints: Seq<u8>, decs: Seq<u8>, k: nat)
    requires
        k >= decs.len(),
    ensures
        magnitude(strip_trailing(ints), strip_trailing(decs), k) == magnitude(ints, decs, k),
        strip_trailing(decs).len() <= decs.len(),
{
    lemma_strip_trailing(ints);
    lemma_strip_trailing(decs);
    let si = strip_trailing(ints);
    let sd = strip_trailing(decs);
    lemma_le_zeros(si, (ints.len() - si.len()) as nat);
    lemma_be_zeros(sd, (decs.len() - sd.len()) as nat);
    lemma_pow10_adds((decs.len() - sd.len()) as nat, (k - decs.len()) as nat);
    assert((k - sd.len()) as nat == (decs.len() - sd.len()) as nat + (k - decs.len()) as nat);
    let b = be_val(sd);
    let p1 = pow10((decs.len() - sd.len()) as nat);
    let p2 = pow10((k - decs.len()) as nat);
    assert(b * (p1 * p2) == (b * p1) * p2) by (nonlinear_arith);
}

impl Bignum {
    /// Subtracts two numbers of the same sign: the smaller magnitude is taken from the larger
    /// digit by digit, and the sign is set from which one was larger. Trailing zero digits of
    /// the result are removed, and a zero result is never negative.
    pub(crate) fn sub_same_sign(self, other: Bignum) -> (r: Bignum)
        requires
            self.wf(),
            other.wf(),
            self.is_neg == other.is_neg,
        ensures
            r.wf(),
            r.dec@.len() <= self.scale2(&other),
            value_at(r, self.scale2(&other)) == value_at(self, self.scale2(&other)) - value_at(
                other,
                self.scale2(&other),
            ),
            r.int@.len() == 0 || r.int@.last() != 0,
            r.is_neg ==> value_at(r, self.scale2(&other)) != 0,
            r.is_neg ==> le_val(r.int@) > 0 || be_val(r.dec@) > 0,
            r.dec@.len() == 0 || r.dec@.last() != 0,
    {
        let ghost k = self.scale2(&other);
        let ghost ms = magnitude(self.int@, self.dec@, k);
        let ghost mo = magnitude(other.int@, other.dec@, k);
        let mut is_neg: bool = false;
        let lhs: Bignum;
        let rhs: Bignum;
        let order = compare_magnitude(&self, &other);
        if matches!(order, MagnitudeOrder::Greater) {
            if self.is_neg {
                is_neg = true;
            }
            lhs = other;
            rhs = self;
        } else {
            if !(self.is_neg || other.is_neg) {
                is_neg = true;
            }
            lhs = self;
            rhs = other;
        }
        let ghost ml = magnitude(lhs.int@, lhs.dec@, k);
        let ghost mr = magnitude(rhs.int@, rhs.dec@, k);
        assert(mr >= ml);
        let (res_dec, lhs_dec) = normalize_vecs(rhs.dec, lhs.dec);
        let (res_int, lhs_int) = normalize_vecs(rhs.int, lhs.int);
        proof {
            assert(res_dec@.len() == k);
            assert forall|j: int| 0 <= j < res_dec@.len() implies #[trigger] res_dec@[j] < 10 by {
                if j >= rhs.dec@.len() {
                    assert(res_dec@[j] == 0);
                }
            }
            assert forall|j: int| 0 <= j < lhs_dec@.len() implies #[trigger] lhs_dec@[j] < 10 by {
                if j >= lhs.dec@.len() {
                    assert(lhs_dec@[j] == 0);
                }
            }
            assert forall|j: int| 0 <= j < res_int@.len() implies #[trigger] res_int@[j] < 10 by {
                if j >= rhs.int@.len() {
                    assert(res_int@[j] == 0);
                }
            }
            assert forall|j: int| 0 <= j < lhs_int@.len() implies #[trigger] lhs_int@[j] < 10 by {
                if j >= lhs.int@.len() {
                    assert(lhs_int@[j] == 0);
                }
            }
            lemma_le_zeros(rhs.int@, (res_int@.len() - rhs.int@.len()) as nat);
            lemma_le_zeros(lhs.int@, (lhs_int@.len() - lhs.int@.len()) as nat);
            lemma_be_zeros(rhs.dec@, (res_dec@.len() - rhs.dec@.len()) as nat);
            lemma_be_zeros(lhs.dec@, (lhs_dec@.len() - lhs.dec@.len()) as nat);
        }
        let ghost rd = res_dec@;
        let ghost ld = lhs_dec@;
        let ghost ri = res_int@;
        let ghost li = lhs_int@;
        let (res_dec, borrow) = sub_dec_digits(res_dec, &lhs_dec);
        let (res_int, borrow2) = sub_int_digits(res_int, &lhs_int, borrow);
        proof {
            let pk = pow10(k);
            let n = ri.len();
            let pn = pow10(n);
            let di = le_val(res_int@);
            let dd = be_val(res_dec@);
            assert(mr == le_val(ri) * pk + be_val(rd));
            assert(ml == le_val(li) * pk + be_val(ld));
            assert(dd - borrow * pk == be_val(rd) - be_val(ld));
            assert(di - borrow2 * pn == le_val(ri) - le_val(li) - borrow);
            assert(di * pk + dd - borrow2 * (pn * pk) == mr - ml) by (nonlinear_arith)
                requires
                    dd - borrow * pk == be_val(rd) - be_val(ld),
                    di - borrow2 * pn == le_val(ri) - le_val(li) - borrow,
                    mr == le_val(ri) * pk + be_val(rd),
                    ml == le_val(li) * pk + be_val(ld),
            ;
            lemma_le_bounds(res_int@);
            lemma_be_bounds(res_dec@);
            lemma_pow10_mono(0, n);
            lemma_pow10_mono(0, k);
            if borrow2 == 1 {
                assert(di * pk + dd < pn * pk) by (nonlinear_arith)
                    requires
                        0 <= di < pn,
                        0 <= dd < pk,
                        pk > 0,
                ;
                assert(false);
            }
            assert((k - res_dec@.len()) as nat == 0);
            assert(pow10(0) == 1);
            assert(magnitude(res_int@, res_dec@, k) == mr - ml);
            lemma_truncate_keeps_magnitude(res_int@, res_dec@, k);
        }
        let ghost pre_int = res_int@;
        let ghost pre_dec = res_dec@;
        let res_int = truncate_zeros(res_int);
        let res_dec = truncate_zeros(res_dec);
        proof {
            lemma_strip_trailing(pre_int);
            lemma_strip_trailing(pre_dec);
            assert forall|j: int| 0 <= j < res_int@.len() implies #[trigger] res_int@[j] < 10 by {
                assert(pre_int[j] == res_int@[j]);
            }
            assert forall|j: int| 0 <= j < res_dec@.len() implies #[trigger] res_dec@[j] < 10 by {
                assert(pre_dec[j] == res_dec@[j]);
            }
        }

        // a zero difference is never negative
        if is_neg && res_int.len() == 0 && res_dec.len() == 0 {
            is_neg = false;
        }
        proof {
            if is_neg {
                crate::bignum::modulo::lemma_nonzero_value(res_int@);
                crate::bignum::modulo::lemma_nonzero_value(res_dec@);
                if res_int@.len() > 0 {
                    assert(res_int@[res_int@.len() - 1] != 0);
                } else {
                    assert(res_dec@[res_dec@.len() - 1] != 0);
                }
                crate::bignum::modulo::lemma_magnitude_sign(res_int@, res_dec@, k);
            }
        }
        Bignum { is_neg, dec: res_dec, int: res_int }
    }

    /// Subtracts `other` from `self`. A number of the other sign is added instead (its
    /// absolute value, or its negation).
    pub fn sub(self, other: Bignum) -> (r: Bignum)
        requires
            self.wf(),
            other.wf(),
        ensures
            r.wf(),
            r.dec@.len() <= self.scale2(&other),
            value_at(r, self.scale2(&other)) == value_at(self, self.scale2(&other)) - value_at(
                other,
                self.scale2(&other),
            ),
            self.is_neg == other.is_neg ==> (r.int@.len() == 0 || r.int@.last() != 0),
            self.is_neg == other.is_neg && r.is_neg ==> value_at(r, self.scale2(&other)) != 0,
            self.is_neg == other.is_neg && r.is_neg ==> le_val(r.int@) > 0 || be_val(r.dec@) > 0,
            self.is_neg == other.is_neg ==> (r.dec@.len() == 0 || r.dec@.last() != 0),
            (self.int@.len() == 0 || self.int@.last() != 0) && (other.int@.len() == 0
                || other.int@.last() != 0) ==> (r.int@.len() == 0 || r.int@.last() != 0),
    {
        if !self.is_neg && other.is_neg {
            return self.add(abs(&other));
        } else if self.is_neg && !other.is_neg {
            return self.add(other.neg());
        }
        self.sub_same_sign(other)
    }
}

} // verus!
