//! Multiplication of [`Bignum`]s.
use crate::bignum::add::{lemma_le_split, lemma_le_take_step, lemma_single_digit};
use crate::bignum::sub::lemma_truncate_keeps_magnitude;
use crate::bignum::utils::{lemma_strip_trailing, normalize_vecs, truncate_zeros};
use crate::bignum::{
    Bignum, be_val, digits_ok, le_val, lemma_be_zeros, lemma_le_concat, lemma_le_zeros,
    lemma_pow10_adds, magnitude, pow10, value_at,
};
use vstd::prelude::*;

verus! {

/// The value of the wide coefficients `s`, the coefficient at index `k` weighing `10^k`.
pub open spec fn wide_val(s: Seq<u128>) -> int
    decreases s.len(),
{
    if s.len() == 0 {
        0
    } else {
        s[0] + 10 * wide_val(s.drop_first())
    }
}

/// Changing the coefficient at `k` changes the value by the difference times `10^k`.
proof fn lemma_wide_update(s: Seq<u128>, k: int, v: u128)
    requires
        0 <= k < s.len(),
    ensures
        wide_val(s.update(k, v)) == wide_val(s) + (v - s[k]) * pow10(k as nat),
    decreases k,
{
    let t = s.update(k, v);
    if k == 0 {
        assert(t.drop_first() =~= s.drop_first());
        assert(pow10(0) == 1);
    } else {
        assert(t.drop_first() =~= s.drop_first().update(k - 1, v));
        lemma_wide_update(s.drop_first(), k - 1, v);
        assert(pow10(k as nat) == 10 * pow10((k - 1) as nat));
        let d = (v - s[k]) as int;
        let p = pow10((k - 1) as nat);
        assert(10 * (wide_val(s.drop_first()) + d * p) == 10 * wide_val(s.drop_first()) + d * (10
            * p)) by (nonlinear_arith);
    }
}

/// One more coefficient of a prefix.
proof fn lemma_wide_take_step(s: Seq<u128>, k: int)
    requires
        0 <= k < s.len(),
    ensures
        wide_val(s.take(k + 1)) == wide_val(s.take(k)) + s[k] * pow10(k as nat),
    decreases k,
{
    if k == 0 {
        assert(s.take(1).drop_first() =~= Seq::<u128>::empty());
        assert(s.take(0) =~= Seq::<u128>::empty());
        assert(pow10(0) == 1);
    } else {
        let t = s.drop_first();
        lemma_wide_take_step(t, k - 1);
        assert(s.take(k + 1).drop_first() =~= t.take(k));
        assert(s.take(k).drop_first() =~= t.take(k - 1));
        assert(pow10(k as nat) == 10 * pow10((k - 1) as nat));
        let x = s[k] as int;
        let p = pow10((k - 1) as nat);
        assert(10 * (wide_val(t.take(k - 1)) + x * p) == 10 * wide_val(t.take(k - 1)) + x * (10
            * p)) by (nonlinear_arith);
    }
}

/// All-zero coefficients have value zero.
proof fn lemma_wide_zero(s: Seq<u128>)
    requires
        forall|i: int| 0 <= i < s.len() ==> s[i] == 0,
    ensures
        wide_val(s) == 0,
    decreases s.len(),
{
    if s.len() > 0 {
        lemma_wide_zero(s.drop_first());
    }
}

/// Reading digits least significant first in reverse order is reading them most significant
/// first.
pub proof fn lemma_le_reverse(s: Seq<u8>)
    ensures
        le_val(s.reverse()) == be_val(s),
    decreases s.len(),
{
    if s.len() > 0 {
        let t = s.drop_first();
        lemma_le_reverse(t);
        assert(s.reverse() =~= t.reverse() + seq![s[0]]);
        lemma_le_concat(t.reverse(), seq![s[0]]);
        lemma_single_digit(s[0]);
        let x = s[0] as int;
        let p = pow10(t.len());
        assert(p * x == x * p) by (nonlinear_arith);
    } else {
        assert(s.reverse() =~= s);
    }
}

/// Multiplies the digit sequences `a` and `b` (least significant first) coefficient by
/// coefficient, without carrying.
fn convolve(a: &Vec<u8>, b: &Vec<u8>) -> (r: Vec<u128>)
    requires
        digits_ok(a@),
        digits_ok(b@),
        a@.len() + b@.len() <= usize::MAX,
    ensures
        r@.len() == a@.len() + b@.len(),
        wide_val(r@) == le_val(a@) * le_val(b@),
        forall|k: int| 0 <= k < r@.len() ==> #[trigger] r@[k] <= 81 * a@.len(),
{
    let na = a.len();
    let nb = b.len();
    let mut res: Vec<u128> = Vec::new();
    let total = na + nb;
    for k in 0..total
        invariant
            res@.len() == k,
            forall|l: int| 0 <= l < k ==> res@[l] == 0,
    {
        res.push(0);
    }
    proof {
        lemma_wide_zero(res@);
        assert(a@.take(0) =~= Seq::<u8>::empty());
    }
    for i in 0..na
        invariant
            na == a@.len(),
            nb == b@.len(),
            res@.len() == na + nb,
            digits_ok(a@),
            digits_ok(b@),
            na + nb <= usize::MAX,
            wide_val(res@) == le_val(a@.take(i as int)) * le_val(b@),
            forall|k: int| 0 <= k < res@.len() ==> #[trigger] res@[k] <= 81 * i,
    {
        assert(b@.take(0) =~= Seq::<u8>::empty());
        assert(pow10(0) == 1);
        proof {
            let x = (a@[i as int] as int) * pow10(i as nat);
            assert(x * 0 == 0) by (nonlinear_arith);
        }
        for j in 0..nb
            invariant
                na == a@.len(),
                nb == b@.len(),
                i < na,
                res@.len() == na + nb,
                digits_ok(a@),
                digits_ok(b@),
                na + nb <= usize::MAX,
                wide_val(res@) == le_val(a@.take(i as int)) * le_val(b@) + (a@[i as int] as int)
                    * pow10(i as nat) * le_val(b@.take(j as int)),
                forall|k: int|
                    0 <= k < res@.len() && (k < i || k >= i + j) ==> #[trigger] res@[k] <= 81 * i,
                forall|k: int| i <= k < i + j ==> #[trigger] res@[k] <= 81 * (i + 1),
        {
            let ghost old_res = res@;
            let ai = a[i] as u128;
            let bj = b[j] as u128;
            assert(ai * bj <= 81) by (nonlinear_arith)
                requires
                    ai < 10,
                    bj < 10,
            ;
            let cur = res[i + j];
            res.set(i + j, cur + ai * bj);
            proof {
                lemma_wide_update(old_res, (i + j) as int, (cur + ai * bj) as u128);
                lemma_pow10_adds(i as nat, j as nat);
                lemma_le_take_step(b@, j as int);
                let pi = pow10(i as nat);
                let pj = pow10(j as nat);
                let l = le_val(b@.take(j as int));
                let ai_i = ai as int;
                let bj_i = bj as int;
                assert(ai_i * pi * (l + bj_i * pj) == ai_i * pi * l + (ai_i * bj_i) * (pi * pj))
                    by (nonlinear_arith);
            }
        }
        proof {
            assert(b@.take(nb as int) =~= b@);
            lemma_le_take_step(a@, i as int);
            let x = le_val(a@.take(i as int));
            let y = le_val(b@);
            let d = a@[i as int] as int;
            let p = pow10(i as nat);
            assert((x + d * p) * y == x * y + d * p * y) by (nonlinear_arith);
        }
    }
    assert(a@.take(na as int) =~= a@);
    res
}

/// Carries wide coefficients into decimal digits, least significant first, keeping the value.
fn carry_digits(v: Vec<u128>) -> (r: Vec<u8>)
    requires
        forall|k: int| 0 <= k < v@.len() ==> #[trigger] v@[k] <= 0x10_0000_0000_0000_0000_0000_0000,
    ensures
        digits_ok(r@),
        le_val(r@) == wide_val(v@),
        r@.len() >= v@.len(),
{
    let n = v.len();
    let mut out: Vec<u8> = Vec::new();
    let mut carry: u128 = 0;
    assert(v@.take(0) =~= Seq::<u128>::empty());
    assert(pow10(0) == 1);
    for k in 0..n
        invariant
            n == v@.len(),
            out@.len() == k,
            digits_ok(out@),
            carry <= 0x10_0000_0000_0000_0000_0000_0000,
            forall|l: int| 0 <= l < v@.len() ==> #[trigger] v@[l] <= 0x10_0000_0000_0000_0000_0000_0000,
            le_val(out@) + carry * pow10(k as nat) == wide_val(v@.take(k as int)),
    {
        let ghost old_out = out@;
        let ghost cin = carry as int;
        let e = v[k] + carry;
        let d = (e % 10) as u8;
        out.push(d);
        carry = e / 10;
        proof {
            lemma_wide_take_step(v@, k as int);
            assert(out@ =~= old_out + seq![d]);
            lemma_le_concat(old_out, seq![d]);
            lemma_single_digit(d);
            let p = pow10(k as nat);
            assert(pow10((k + 1) as nat) == 10 * p);
            let c = carry as int;
            assert(d + 10 * c == v@[k as int] + cin);
            assert(p * d + c * (10 * p) == v@[k as int] * p + cin * p) by (nonlinear_arith)
                requires
                    d + 10 * c == v@[k as int] + cin,
            ;
        }
    }
    assert(v@.take(n as int) =~= v@);
    while carry > 0
        invariant
            digits_ok(out@),
            out@.len() >= n,
            le_val(out@) + carry * pow10(out@.len()) == wide_val(v@),
        decreases carry,
    {
        let ghost old_out = out@;
        let ghost cin = carry as int;
        let d = (carry % 10) as u8;
        out.push(d);
        carry = carry / 10;
        proof {
            assert(out@ =~= old_out + seq![d]);
            lemma_le_concat(old_out, seq![d]);
            lemma_single_digit(d);
            let p = pow10(old_out.len());
            assert(pow10(out@.len()) == 10 * p);
            let c = carry as int;
            assert(d + 10 * c == cin);
            assert(p * d + c * (10 * p) == cin * p) by (nonlinear_arith)
                requires
                    d + 10 * c == cin,
            ;
        }
    }
    out
}

/// The digits of a number least significant first: its fractional digits (most significant
/// first) reversed, then its integer digits.
fn digits_le(dec: &Vec<u8>, ints: &Vec<u8>) -> (r: Vec<u8>)
    requires
        digits_ok(dec@),
        digits_ok(ints@),
    ensures
        digits_ok(r@),
        r@.len() == dec@.len() + ints@.len(),
        le_val(r@) == be_val(dec@) + pow10(dec@.len()) * le_val(ints@),
{
    let mut out: Vec<u8> = Vec::new();
    let d = dec.len();
    let mut i = d;
    while i > 0
        invariant
            i <= d,
            d == dec@.len(),
            out@ == dec@.subrange(i as int, d as int).reverse(),
        decreases i,
    {
        i -= 1;
        out.push(dec[i]);
        assert(out@ =~= dec@.subrange(i as int, d as int).reverse());
    }
    assert(dec@.subrange(0, d as int) =~= dec@);
    let ghost rev = out@;
    let m = ints.len();
    for j in 0..m
        invariant
            m == ints@.len(),
            out@ == rev + ints@.take(j as int),
    {
        out.push(ints[j]);
        assert(out@ =~= rev + ints@.take(j + 1));
    }
    assert(ints@.take(m as int) =~= ints@);
    proof {
        assert forall|j: int| 0 <= j < out@.len() implies #[trigger] out@[j] < 10 by {
            if j < d {
                assert(out@[j] == dec@[d - 1 - j]);
            } else {
                assert(out@[j] == ints@[j - d]);
            }
        }
        lemma_le_concat(rev, ints@);
        lemma_le_reverse(dec@);
    }
    out
}

/// Splits digits read least significant first at `dec_len`: the digits above form the integer
/// part, the ones below, reversed, the fractional part with exactly `dec_len` digits.
fn split_digits(all: Vec<u8>, dec_len: usize) -> (r: (Vec<u8>, Vec<u8>))
    requires
        digits_ok(all@),
        dec_len <= all@.len(),
    ensures
        digits_ok(r.0@),
        digits_ok(r.1@),
        r.1@.len() == dec_len,
        magnitude(r.0@, r.1@, dec_len as nat) == le_val(all@),
{
    let ghost whole = all@;
    let mut dec_vec = all;
    let int_vec = dec_vec.split_off(dec_len);
    proof {
        assert(dec_vec@ =~= whole.take(dec_len as int));
        assert(int_vec@ =~= whole.skip(dec_len as int));
        lemma_le_split(whole, dec_len as int);
    }
    let mut frac: Vec<u8> = Vec::new();
    let mut l = dec_len;
    while l > 0
        invariant
            l <= dec_len,
            dec_len == dec_vec@.len(),
            frac@ == dec_vec@.subrange(l as int, dec_len as int).reverse(),
        decreases l,
    {
        l -= 1;
        frac.push(dec_vec[l]);
        assert(frac@ =~= dec_vec@.subrange(l as int, dec_len as int).reverse());
    }
    proof {
        assert(dec_vec@.subrange(0, dec_len as int) =~= dec_vec@);
        assert(frac@.reverse() =~= dec_vec@);
        lemma_le_reverse(frac@);
        assert forall|j: int| 0 <= j < frac@.len() implies #[trigger] frac@[j] < 10 by {
            assert(frac@[j] == whole[dec_len - 1 - j]);
        }
        assert forall|j: int| 0 <= j < int_vec@.len() implies #[trigger] int_vec@[j] < 10 by {
            assert(int_vec@[j] == whole[dec_len + j]);
        }
        assert((dec_len - frac@.len()) as nat == 0);
        assert(pow10(0) == 1);
        let p2 = pow10(dec_len as nat);
        assert(p2 * le_val(int_vec@) == le_val(int_vec@) * p2) by (nonlinear_arith);
    }
    (int_vec, frac)
}

/// Zero padding keeps digits within range.
proof fn lemma_padded_digits(orig: Seq<u8>, padded: Seq<u8>)
    requires
        digits_ok(orig),
        orig.len() <= padded.len(),
        forall|j: int| 0 <= j < orig.len() ==> padded[j] == orig[j],
        forall|j: int| orig.len() <= j < padded.len() ==> padded[j] == 0,
    ensures
        digits_ok(padded),
{
    assert forall|j: int| 0 <= j < padded.len() implies #[trigger] padded[j] < 10 by {
        if j < orig.len() {
            assert(padded[j] == orig[j]);
        }
    }
}

/// The sign rule of multiplication on values.
proof fn lemma_signed_product(ma: int, mb: int, na: bool, nb: bool)
    ensures
        (if na != nb {
            -(ma * mb)
        } else {
            ma * mb
        }) == (if na {
            -ma
        } else {
            ma
        }) * (if nb {
            -mb
        } else {
            mb
        }),
{
    assert((-ma) * (-mb) == ma * mb) by (nonlinear_arith);
    assert((-ma) * mb == -(ma * mb)) by (nonlinear_arith);
    assert(ma * (-mb) == -(ma * mb)) by (nonlinear_arith);
}

impl Bignum {
    /// Multiplies two numbers. Both fractional parts are padded to the same length `d` and
    /// both integer parts to the same length; the digits are multiplied exactly and carried, the
    /// lowest `2d` digits of the product form its fractional part, and trailing zero digits are
    /// removed from both parts.
    pub fn mul(self, rhs: Bignum) -> (r: Bignum)
        requires
            self.wf(),
            rhs.wf(),
            self.int@.len() + self.dec@.len() + rhs.int@.len() + rhs.dec@.len() <= isize::MAX,
        ensures
            r.wf(),
            r.is_neg == (self.is_neg != rhs.is_neg),
            r.int@.len() == 0 || r.int@.last() != 0,
            r.dec@.len() == 0 || r.dec@.last() != 0,
            r.dec@.len() <= 2 * self.scale2(&rhs),
            value_at(r, 2 * self.scale2(&rhs)) == value_at(self, self.scale2(&rhs)) * value_at(
                rhs,
                self.scale2(&rhs),
            ),
    {
        let ghost k = self.scale2(&rhs);
        let ghost a = self;
        let ghost b = rhs;
        let ghost ma = magnitude(a.int@, a.dec@, k);
        let ghost mb = magnitude(b.int@, b.dec@, k);
        let is_neg: bool = self.is_neg ^ rhs.is_neg;
        let (lhs_dec, rhs_dec) = normalize_vecs(self.dec, rhs.dec);
        let dec_len = lhs_dec.len() * 2;
        let (lhs_int, rhs_int) = normalize_vecs(self.int, rhs.int);
        proof {
            lemma_padded_digits(a.dec@, lhs_dec@);
            lemma_padded_digits(b.dec@, rhs_dec@);
            lemma_padded_digits(a.int@, lhs_int@);
            lemma_padded_digits(b.int@, rhs_int@);
            lemma_le_zeros(a.int@, (lhs_int@.len() - a.int@.len()) as nat);
            lemma_le_zeros(b.int@, (rhs_int@.len() - b.int@.len()) as nat);
            lemma_be_zeros(a.dec@, (lhs_dec@.len() - a.dec@.len()) as nat);
            lemma_be_zeros(b.dec@, (rhs_dec@.len() - b.dec@.len()) as nat);
        }
        let lhs_digits = digits_le(&lhs_dec, &lhs_int);
        let rhs_digits = digits_le(&rhs_dec, &rhs_int);
        proof {
            let pk = pow10(k);
            assert(pk * le_val(a.int@) == le_val(a.int@) * pk) by (nonlinear_arith);
            assert(pk * le_val(b.int@) == le_val(b.int@) * pk) by (nonlinear_arith);
            assert(le_val(lhs_digits@) == ma);
            assert(le_val(rhs_digits@) == mb);
        }
        let prod = convolve(&lhs_digits, &rhs_digits);
        proof {
            assert forall|l: int| 0 <= l < prod@.len() implies #[trigger] prod@[l]
                <= 0x10_0000_0000_0000_0000_0000_0000 by {
                assert(prod@[l] <= 81 * lhs_digits@.len());
            }
        }
        let all = carry_digits(prod);
        let (int_vec, frac) = split_digits(all, dec_len);
        proof {
            lemma_truncate_keeps_magnitude(int_vec@, frac@, 2 * k);
            lemma_strip_trailing(int_vec@);
            lemma_strip_trailing(frac@);
        }
        let ghost pre_int = int_vec@;
        let ghost pre_dec = frac@;
        let r = Bignum { is_neg, int: truncate_zeros(int_vec), dec: truncate_zeros(frac) };
        proof {
            assert forall|j: int| 0 <= j < r.int@.len() implies #[trigger] r.int@[j] < 10 by {
                assert(pre_int[j] == r.int@[j]);
            }
            assert forall|j: int| 0 <= j < r.dec@.len() implies #[trigger] r.dec@[j] < 10 by {
                assert(pre_dec[j] == r.dec@[j]);
            }
            lemma_signed_product(ma, mb, a.is_neg, b.is_neg);
        }
        r
    }
}

} // verus!
