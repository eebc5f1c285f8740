//! Arbitrary-precision signed decimal numbers.
//!
//! A [`Bignum`] holds its integer digits least significant first (`int[0]` is the units digit)
//! and its fractional digits most significant first (`dec[0]` is the tenths digit). Its value
//! is written over integers by scaling it with a power of ten, see [`value_at`].
pub mod utils;
pub mod add;
pub mod sub;
pub mod negate;
pub mod mul;
pub mod modulo;

use vstd::prelude::*;

verus! {

/// A signed decimal number of any precision.
#[derive(Debug)]
pub struct Bignum {
    /// Whether the number is negative.
    pub is_neg: bool,
    /// The integer digits, least significant first.
    pub int: Vec<u8>,
    /// The fractional digits, most significant (tenths) first.
    pub dec: Vec<u8>,
}

/// `10^n`.
pub open spec fn pow10(n: nat) -> int
    decreases n,
{
    if n == 0 {
        1
    } else {
        10 * pow10((n - 1) as nat)
    }
}

/// Every entry of `s` is a decimal digit.
pub open spec fn digits_ok(s: Seq<u8>) -> bool {
    forall|i: int| 0 <= i < s.len() ==> #[trigger] s[i] < 10
}

/// The value of the digits `s` read least significant first.
pub open spec fn le_val(s: Seq<u8>) -> int
    decreases s.len(),
{
    if s.len() == 0 {
        0
    } else {
        s[0] + 10 * le_val(s.drop_first())
    }
}

/// The value of the digits `s` read most significant first.
pub open spec fn be_val(s: Seq<u8>) -> int
    decreases s.len(),
{
    if s.len() == 0 {
        0
    } else {
        s[0] * pow10((s.len() - 1) as nat) + be_val(s.drop_first())
    }
}

/// The magnitude of a number with integer digits `ints` and fractional digits `decs`, scaled
/// by `10^k` (exact for `k >= decs.len()`).
pub open spec fn magnitude(ints: Seq<u8>, decs: Seq<u8>, k: nat) -> int {
    le_val(ints) * pow10(k) + be_val(decs) * pow10((k - decs.len()) as nat)
}

/// The signed value of `b` scaled by `10^k` (exact for `k >= b.dec.len()`).
pub open spec fn value_at(b: Bignum, k: nat) -> int {
    if b.is_neg {
        -magnitude(b.int@, b.dec@, k)
    } else {
        magnitude(b.int@, b.dec@, k)
    }
}

/// The larger of two fractional lengths.
pub open spec fn max_nat(a: nat, b: nat) -> nat {
    if a >= b {
        a
    } else {
        b
    }
}

impl Bignum {
    /// Every integer and fractional entry is a decimal digit.
    pub open spec fn wf(&self) -> bool {
        digits_ok(self.int@) && digits_ok(self.dec@)
    }

    /// The common scale of two numbers: the longer of their fractional parts.
    pub open spec fn scale2(&self, other: &Bignum) -> nat {
        max_nat(self.dec@.len(), other.dec@.len())
    }
}

/// `10^(a + b) == 10^a * 10^b`.
pub proof fn lemma_pow10_adds(a: nat, b: nat)
    ensures
        pow10(a + b) == pow10(a) * pow10(b),
        pow10(a) > 0,
    decreases a,
{
    if a > 0 {
        lemma_pow10_adds((a - 1) as nat, b);
        assert(pow10(a + b) == 10 * pow10((a - 1 + b) as nat));
        let x = pow10((a - 1) as nat);
        let y = pow10(b);
        assert(pow10(a) == 10 * x);
        assert((10 * x) * y == 10 * (x * y)) by (nonlinear_arith);
    } else {
        assert(a + b == b);
        assert(pow10(a) == 1);
        assert(1 * pow10(b) == pow10(b));
    }
}

/// Powers of ten are positive and grow with the exponent.
pub proof fn lemma_pow10_mono(a: nat, b: nat)
    requires
        a <= b,
    ensures
        0 < pow10(a) <= pow10(b),
    decreases b,
{
    if b > a {
        lemma_pow10_mono(a, (b - 1) as nat);
    }
    lemma_pow10_adds(a, 0);
}

/// Reading `a ++ b` least significant first: `a` is the low part.
pub proof fn lemma_le_concat(a: Seq<u8>, b: Seq<u8>)
    ensures
        le_val(a + b) == le_val(a) + pow10(a.len()) * le_val(b),
    decreases a.len(),
{
    if a.len() == 0 {
        assert(a + b =~= b);
        assert(pow10(0) == 1);
        assert(le_val(a) == 0);
    } else {
        let t = a.drop_first();
        assert((a + b).drop_first() =~= t + b);
        lemma_le_concat(t, b);
        assert(pow10(a.len()) == 10 * pow10(t.len()));
        let x = le_val(t);
        let p = pow10(t.len());
        let y = le_val(b);
        assert(le_val(a + b) == a[0] + 10 * le_val(t + b));
        assert(le_val(a) == a[0] + 10 * x);
        assert(10 * (x + p * y) == 10 * x + (10 * p) * y) by (nonlinear_arith);
    }
}

/// Reading `a ++ b` most significant first: `a` is the high part.
pub proof fn lemma_be_concat(a: Seq<u8>, b: Seq<u8>)
    ensures
        be_val(a + b) == be_val(a) * pow10(b.len()) + be_val(b),
    decreases a.len(),
{
    if a.len() == 0 {
        assert(a + b =~= b);
    } else {
        let t = a.drop_first();
        assert((a + b).drop_first() =~= t + b);
        assert((a + b)[0] == a[0]);
        lemma_be_concat(t, b);
        lemma_pow10_adds(t.len(), b.len());
        assert((a + b).len() - 1 == t.len() + b.len());
        let d = a[0] as int;
        let pt = pow10(t.len());
        let pb = pow10(b.len());
        assert(d * (pt * pb) + (be_val(t) * pb + be_val(b)) == (d * pt + be_val(t)) * pb + be_val(
            b,
        )) by (nonlinear_arith);
    }
}

/// Digits read least significant first stay below `10^len`.
pub proof fn lemma_le_bounds(s: Seq<u8>)
    requires
        digits_ok(s),
    ensures
        0 <= le_val(s) < pow10(s.len()),
    decreases s.len(),
{
    if s.len() > 0 {
        let t = s.drop_first();
        lemma_le_bounds(t);
        assert(s[0] < 10);
        assert(pow10(s.len()) == 10 * pow10(t.len()));
    }
}

/// Digits read most significant first stay below `10^len`.
pub proof fn lemma_be_bounds(s: Seq<u8>)
    requires
        digits_ok(s),
    ensures
        0 <= be_val(s) < pow10(s.len()),
    decreases s.len(),
{
    if s.len() > 0 {
        let t = s.drop_first();
        lemma_be_bounds(t);
        assert(s[0] < 10);
        assert(pow10(s.len()) == 10 * pow10(t.len()));
        lemma_pow10_adds(t.len(), 0);
        let p = pow10(t.len());
        assert(s[0] * p + be_val(t) < 10 * p) by (nonlinear_arith)
            requires
                p > 0,
                s[0] <= 9,
                be_val(t) < p,
                0 <= s[0],
        ;
        assert(s[0] * p >= 0) by (nonlinear_arith)
            requires
                s[0] >= 0,
                p > 0,
        ;
    }
}

/// Trailing zero digits read least significant first add nothing.
pub proof fn lemma_le_zeros(a: Seq<u8>, n: nat)
    ensures
        le_val(a + Seq::new(n, |i: int| 0u8)) == le_val(a),
    decreases n,
{
    let z = Seq::new(n, |i: int| 0u8);
    lemma_le_concat(a, z);
    lemma_le_all_zero(z);
}

/// Zero digits have value zero.
pub proof fn lemma_le_all_zero(z: Seq<u8>)
    requires
        forall|i: int| 0 <= i < z.len() ==> z[i] == 0,
    ensures
        le_val(z) == 0,
        be_val(z) == 0,
    decreases z.len(),
{
    if z.len() > 0 {
        lemma_le_all_zero(z.drop_first());
    }
}

/// Trailing zero digits read most significant first scale the value.
pub proof fn lemma_be_zeros(a: Seq<u8>, n: nat)
    ensures
        be_val(a + Seq::new(n, |i: int| 0u8)) == be_val(a) * pow10(n),
{
    let z = Seq::new(n, |i: int| 0u8);
    lemma_be_concat(a, z);
    lemma_le_all_zero(z);
}

/// Scaling by one more power of ten multiplies the scaled value by ten.
pub proof fn lemma_magnitude_scale(ints: Seq<u8>, decs: Seq<u8>, k: nat, j: nat)
    requires
        k >= decs.len(),
    ensures
        magnitude(ints, decs, k + j) == magnitude(ints, decs, k) * pow10(j),
{
    lemma_pow10_adds(k, j);
    lemma_pow10_adds((k - decs.len()) as nat, j);
    assert((k + j - decs.len()) as nat == (k - decs.len()) as nat + j);
    let a = le_val(ints);
    let b = be_val(decs);
    let pk = pow10(k);
    let pd = pow10((k - decs.len()) as nat);
    let pj = pow10(j);
    assert(a * (pk * pj) + b * (pd * pj) == (a * pk + b * pd) * pj) by (nonlinear_arith);
}

/// The signed value at a larger scale is the value times the extra power of ten.
pub proof fn lemma_value_scale(b: Bignum, k: nat, j: nat)
    requires
        k >= b.dec@.len(),
    ensures
        value_at(b, k + j) == value_at(b, k) * pow10(j),
{
    lemma_magnitude_scale(b.int@, b.dec@, k, j);
    let m = magnitude(b.int@, b.dec@, k);
    let p = pow10(j);
    assert(-(m * p) == (-m) * p) by (nonlinear_arith);
}

} // verus!
