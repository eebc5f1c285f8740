//! Addition of [`Bignum`]s.
use crate::bignum::{Bignum, be_val, digits_ok, le_val, lemma_be_concat, lemma_le_concat, lemma_pow10_adds, magnitude, pow10, value_at};
use vstd::prelude::*;

verus! {

/// A single digit read either way is itself.
pub proof fn lemma_single_digit(x: u8)
    ensures
        le_val(seq![x]) == x,
        be_val(seq![x]) == x,
{
    assert(seq![x].drop_first() =~= Seq::<u8>::empty());
    assert(le_val(Seq::<u8>::empty()) == 0);
    assert(be_val(Seq::<u8>::empty()) == 0);
    assert(pow10(0) == 1);
    assert(le_val(seq![x]) == x + 10 * le_val(seq![x].drop_first()));
    assert(be_val(seq![x]) == x * pow10(0) + be_val(seq![x].drop_first()));
}

/// Splitting a digit sequence at `i` for a reading least significant first.
pub proof fn lemma_le_split(s: Seq<u8>, i: int)
    requires
        0 <= i <= s.len(),
    ensures
        le_val(s) == le_val(s.take(i)) + pow10(i as nat) * le_val(s.skip(i)),
{
    assert(s =~= s.take(i) + s.skip(i));
    lemma_le_concat(s.take(i), s.skip(i));
}

/// One more digit read least significant first.
pub proof fn lemma_le_take_step(s: Seq<u8>, i: int)
    requires
        0 <= i < s.len(),
    ensures
        le_val(s.take(i + 1)) == le_val(s.take(i)) + s[i] * pow10(i as nat),
{
    assert(s.take(i + 1) =~= s.take(i) + seq![s[i]]);
    lemma_le_concat(s.take(i), seq![s[i]]);
    lemma_single_digit(s[i]);
    assert(s.take(i).len() == i);
    let x = s[i] as int;
    let p = pow10(i as nat);
    assert(p * x == x * p) by (nonlinear_arith);
}

/// One more digit in front, read most significant first.
pub proof fn lemma_be_sub_step(s: Seq<u8>, i: int, m: int)
    requires
        0 <= i < m <= s.len(),
    ensures
        be_val(s.subrange(i, m)) == s[i] * pow10((m - i - 1) as nat) + be_val(s.subrange(i + 1, m)),
{
    assert(s.subrange(i, m) =~= seq![s[i]] + s.subrange(i + 1, m));
    lemma_be_concat(seq![s[i]], s.subrange(i + 1, m));
    lemma_single_digit(s[i]);
}

/// Splitting a digit sequence at `m` for a reading most significant first.
pub proof fn lemma_be_split(s: Seq<u8>, m: int)
    requires
        0 <= m <= s.len(),
    ensures
        be_val(s) == be_val(s.subrange(0, m)) * pow10((s.len() - m) as nat) + be_val(
            s.subrange(m, s.len() as int),
        ),
{
    assert(s =~= s.subrange(0, m) + s.subrange(m, s.len() as int));
    lemma_be_concat(s.subrange(0, m), s.subrange(m, s.len() as int));
}

/// Adds the fractional digits `short` into `long`, aligned at the tenths digit. Returns the
/// fractional digits of the sum and the carry into the units digit.
fn add_dec_digits(long: Vec<u8>, short: &Vec<u8>) -> (r: (Vec<u8>, u8))
    requires
        short@.len() <= long@.len(),
        digits_ok(long@),
        digits_ok(short@),
    ensures
        r.0@.len() == long@.len(),
        digits_ok(r.0@),
        r.1 <= 1,
        be_val(r.0@) + r.1 * pow10(long@.len()) == be_val(long@) + be_val(short@) * pow10(
            (long@.len() - short@.len()) as nat,
        ),
{
    let ghost lg = long@;
    let ghost sh = short@;
    let n = long.len();
    let m = short.len();
    let mut res = long;
    let mut carry: u8 = 0;
    let mut i = m;
    assert(res@.subrange(m as int, m as int) =~= Seq::<u8>::empty());
    assert(lg.subrange(m as int, m as int) =~= Seq::<u8>::empty());
    assert(sh.subrange(m as int, m as int) =~= Seq::<u8>::empty());
    assert(pow10(0) == 1);
    while i > 0
        invariant
            res@.len() == n,
            n == lg.len(),
            m == sh.len(),
            sh == short@,
            m <= n,
            i <= m,
            carry <= 1,
            digits_ok(lg),
            digits_ok(sh),
            digits_ok(res@),
            forall|j: int| 0 <= j < i ==> res@[j] == lg[j],
            forall|j: int| m <= j < n ==> res@[j] == lg[j],
            be_val(res@.subrange(i as int, m as int)) + carry * pow10((m - i) as nat) == be_val(
                lg.subrange(i as int, m as int),
            ) + be_val(sh.subrange(i as int, m as int)),
        decreases i,
    {
        i -= 1;
        let ghost old_res = res@;
        let ghost c0 = carry as int;
        let t = res[i] + short[i] + carry;
        if t > 9 {
            carry = 1;
        } else {
            carry = 0;
        }
        res.set(i, t % 10);
        proof {
            let ii = i as int;
            let p = pow10((m - i - 1) as nat);
            assert(pow10((m - i) as nat) == 10 * p);
            lemma_be_sub_step(res@, ii, m as int);
            lemma_be_sub_step(lg, ii, m as int);
            lemma_be_sub_step(sh, ii, m as int);
            assert(res@.subrange(ii + 1, m as int) =~= old_res.subrange(ii + 1, m as int));
            let d = res@[ii] as int;
            let c = carry as int;
            assert(d + 10 * c == lg[ii] + sh[ii] + c0);
            assert(d * p + c * (10 * p) == lg[ii] * p + sh[ii] * p + c0 * p) by (nonlinear_arith)
                requires
                    d + 10 * c == lg[ii] + sh[ii] + c0,
            ;
        }
    }
    proof {
        lemma_be_split(res@, m as int);
        lemma_be_split(lg, m as int);
        assert(res@.subrange(m as int, n as int) =~= lg.subrange(m as int, n as int));
        assert(sh.subrange(0, m as int) =~= sh);
        lemma_pow10_adds(m as nat, (n - m) as nat);
        let q = pow10((n - m) as nat);
        let pm = pow10(m as nat);
        let a = be_val(res@.subrange(0, m as int));
        let b = be_val(lg.subrange(0, m as int));
        assert(a + carry * pm == b + be_val(sh));
        assert(a * q + carry * (pm * q) == b * q + be_val(sh) * q) by (nonlinear_arith)
            requires
                a + carry * pm == b + be_val(sh),
        ;
    }
    (res, carry)
}

/// Digits read least significant first are bounded by their length, and the top digit decides
/// whether the value reaches the lowest number of that length.
pub proof fn lemma_le_val_top(s: Seq<u8>)
    requires
        digits_ok(s),
        s.len() > 0,
    ensures
        le_val(s) >= 0,
        s.last() == 0 ==> le_val(s) < pow10((s.len() - 1) as nat),
        s.last() != 0 ==> le_val(s) >= pow10((s.len() - 1) as nat),
    decreases s.len(),
{
    let t = s.drop_first();
    assert(le_val(s) == s[0] + 10 * le_val(t));
    if s.len() == 1 {
        assert(t.len() == 0);
        assert(le_val(t) == 0);
        assert(pow10(0) == 1);
    } else {
        assert(digits_ok(t)) by {
            assert forall|i: int| 0 <= i < t.len() implies #[trigger] t[i] < 10 by {
                assert(t[i] == s[i + 1]);
            }
        }
        assert(t.last() == s.last());
        lemma_le_val_top(t);
        assert(pow10((s.len() - 1) as nat) == 10 * pow10((t.len() - 1) as nat));
        assert(s[0] < 10);
    }
}

/// Digits have a nonnegative value.
proof fn lemma_le_val_nonneg(s: Seq<u8>)
    ensures
        le_val(s) >= 0,
    decreases s.len(),
{
    if s.len() > 0 {
        lemma_le_val_nonneg(s.drop_first());
    }
}

/// A sum of digits that is at least `long` and keeps its length or grows by a top digit 1 has
/// a nonzero top digit when `long` has one.
proof fn lemma_top_digit_kept(long: Seq<u8>, r: Seq<u8>)
    requires
        digits_ok(long),
        digits_ok(r),
        le_val(r) >= le_val(long),
        r.len() == long.len() || (r.len() == long.len() + 1 && r.last() == 1),
    ensures
        (long.len() == 0 || long.last() != 0) ==> (r.len() == 0 || r.last() != 0),
{
    if long.len() > 0 && long.last() != 0 && r.len() == long.len() {
        lemma_le_val_top(long);
        lemma_le_val_top(r);
    }
}

/// Adds the integer digits `short` and an incoming `carry` into `long`, aligned at the units
/// digit, growing the result by one digit when a carry is left over.
fn add_int_digits(long: Vec<u8>, short: &Vec<u8>, carry: u8) -> (r: Vec<u8>)
    requires
        short@.len() <= long@.len(),
        digits_ok(long@),
        digits_ok(short@),
        carry <= 1,
    ensures
        digits_ok(r@),
        le_val(r@) == le_val(long@) + le_val(short@) + carry,
        r@.len() == long@.len() || (r@.len() == long@.len() + 1 && r@.last() == 1),
{
    let ghost lg = long@;
    let ghost sh = short@;
    let ghost c0 = carry as int;
    let n = long.len();
    let m = short.len();
    let mut res = long;
    let mut carry = carry;
    assert(res@.take(0) =~= Seq::<u8>::empty());
    assert(lg.take(0) =~= Seq::<u8>::empty());
    assert(sh.take(0) =~= Seq::<u8>::empty());
    assert(pow10(0) == 1);
    for i in 0..m
        invariant
            res@.len() == n,
            n == lg.len(),
            m == sh.len(),
            sh == short@,
            m <= n,
            carry <= 1,
            digits_ok(lg),
            digits_ok(sh),
            digits_ok(res@),
            forall|j: int| i <= j < n ==> res@[j] == lg[j],
            le_val(res@.take(i as int)) + carry * pow10(i as nat) == le_val(lg.take(i as int))
                + le_val(sh.take(i as int)) + c0,
    {
        let ghost old_res = res@;
        let ghost cin = carry as int;
        let t = res[i] + short[i] + carry;
        if t > 9 {
            carry = 1;
        } else {
            carry = 0;
        }
        res.set(i, t % 10);
        proof {
            let ii = i as int;
            let p = pow10(i as nat);
            assert(pow10((i + 1) as nat) == 10 * p);
            lemma_le_take_step(res@, ii);
            lemma_le_take_step(lg, ii);
            lemma_le_take_step(sh, ii);
            assert(res@.take(ii) =~= old_res.take(ii));
            let d = res@[ii] as int;
            let c = carry as int;
            assert(d + 10 * c == lg[ii] + sh[ii] + cin);
            assert(d * p + c * (10 * p) == lg[ii] * p + sh[ii] * p + cin * p) by (nonlinear_arith)
                requires
                    d + 10 * c == lg[ii] + sh[ii] + cin,
            ;
        }
    }
    assert(sh.take(m as int) =~= sh);
    let mut i = m;
    while carry != 0 && i < n
        invariant
            res@.len() == n,
            n == lg.len(),
            m <= i <= n,
            carry <= 1,
            digits_ok(lg),
            digits_ok(res@),
            forall|j: int| i <= j < n ==> res@[j] == lg[j],
            le_val(res@.take(i as int)) + carry * pow10(i as nat) == le_val(lg.take(i as int))
                + le_val(sh) + c0,
        decreases n - i,
    {
        let ghost old_res = res@;
        let ghost cin = carry as int;
        let t = res[i] + carry;
        if t > 9 {
            carry = 1;
        } else {
            carry = 0;
        }
        res.set(i, t % 10);
        proof {
            let ii = i as int;
            let p = pow10(i as nat);
            assert(pow10((i + 1) as nat) == 10 * p);
            lemma_le_take_step(res@, ii);
            lemma_le_take_step(lg, ii);
            assert(res@.take(ii) =~= old_res.take(ii));
            let d = res@[ii] as int;
            let c = carry as int;
            assert(d + 10 * c == lg[ii] + cin);
            assert(d * p + c * (10 * p) == lg[ii] * p + cin * p) by (nonlinear_arith)
                requires
                    d + 10 * c == lg[ii] + cin,
            ;
        }
        i += 1;
    }
    proof {
        lemma_le_split(res@, i as int);
        lemma_le_split(lg, i as int);
        assert(res@.skip(i as int) =~= lg.skip(i as int));
    }
    if carry == 1 {
        let ghost before = res@;
        res.push(1);
        proof {
            assert(i == n);
            assert(res@ =~= before + seq![1u8]);
            lemma_le_concat(before, seq![1u8]);
            lemma_single_digit(1u8);
            assert(before.take(n as int) =~= before);
            assert(lg.take(n as int) =~= lg);
            assert(before.skip(n as int) =~= Seq::<u8>::empty());
        }
    }
    res
}

impl Bignum {
    /// Adds two numbers of the same sign digit by digit; the sum keeps the longer fractional
    /// part.
    pub(crate) fn add_same_sign(self, rhs: Bignum) -> (r: Bignum)
        requires
            self.wf(),
            rhs.wf(),
            self.is_neg == rhs.is_neg,
        ensures
            r.wf(),
            r.is_neg == self.is_neg,
            r.dec@.len() == self.scale2(&rhs),
            magnitude(r.int@, r.dec@, self.scale2(&rhs)) == magnitude(
                self.int@,
                self.dec@,
                self.scale2(&rhs),
            ) + magnitude(rhs.int@, rhs.dec@, self.scale2(&rhs)),
            (self.int@.len() == 0 || self.int@.last() != 0) && (rhs.int@.len() == 0
                || rhs.int@.last() != 0) ==> (r.int@.len() == 0 || r.int@.last() != 0),
    {
        let ghost k = self.scale2(&rhs);
        let ghost a = self;
        let ghost b = rhs;
        let is_neg: bool = rhs.is_neg && self.is_neg;
        assert(pow10(0) == 1);
        let (res_dec, carry) = if self.dec.len() > rhs.dec.len() {
            let r = add_dec_digits(self.dec, &rhs.dec);
            assert((k - a.dec@.len()) as nat == 0);
            r
        } else {
            let r = add_dec_digits(rhs.dec, &self.dec);
            assert((k - b.dec@.len()) as nat == 0);
            r
        };
        let res_int = if self.int.len() > rhs.int.len() {
            let r = add_int_digits(self.int, &rhs.int, carry);
            proof {
                lemma_le_val_nonneg(b.int@);
                lemma_top_digit_kept(a.int@, r@);
            }
            r
        } else {
            let r = add_int_digits(rhs.int, &self.int, carry);
            proof {
                lemma_le_val_nonneg(a.int@);
                lemma_top_digit_kept(b.int@, r@);
            }
            r
        };
        proof {
            let pk = pow10(k);
            let ia = le_val(a.int@);
            let ib = le_val(b.int@);
            let da = be_val(a.dec@) * pow10((k - a.dec@.len()) as nat);
            let db = be_val(b.dec@) * pow10((k - b.dec@.len()) as nat);
            assert(be_val(res_dec@) + carry * pk == da + db);
            assert(le_val(res_int@) == ia + ib + carry);
            assert((ia + ib + carry) * pk == ia * pk + ib * pk + carry * pk) by (nonlinear_arith);
        }
        Bignum { is_neg, int: res_int, dec: res_dec }
    }

    /// Adds two numbers. Numbers of the same sign are added digit by digit, keeping the longer
    /// fractional part; numbers of different signs are subtracted.
    pub fn add(self, rhs: Bignum) -> (r: Bignum)
        requires
            self.wf(),
            rhs.wf(),
        ensures
            r.wf(),
            r.dec@.len() <= self.scale2(&rhs),
            value_at(r, self.scale2(&rhs)) == value_at(self, self.scale2(&rhs)) + value_at(
                rhs,
                self.scale2(&rhs),
            ),
            (self.int@.len() == 0 || self.int@.last() != 0) && (rhs.int@.len() == 0
                || rhs.int@.last() != 0) ==> (r.int@.len() == 0 || r.int@.last() != 0),
            self.is_neg == rhs.is_neg ==> r.dec@.len() == self.scale2(&rhs) && r.is_neg
                == self.is_neg,
            self.is_neg != rhs.is_neg ==> (r.dec@.len() == 0 || r.dec@.last() != 0),
            self.is_neg != rhs.is_neg && r.is_neg ==> le_val(r.int@) > 0 || be_val(r.dec@) > 0,
    {
        if self.is_neg == rhs.is_neg {
            self.add_same_sign(rhs)
        } else {
            self.sub_same_sign(rhs.neg())
        }
    }
}

} // verus!
