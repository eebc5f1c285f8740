use crate::math::gcd::{gcd, spec_gcd, lemma_gcd_divides, lemma_gcd_le};
use vstd::arithmetic::mul::{lemma_mul_is_associative, lemma_mul_is_commutative, lemma_mul_is_distributive_add_other_way};
use vstd::arithmetic::power::pow;
use vstd::math::abs;
use vstd::prelude::*;

verus! {

/// A dense polynomial with integer coefficients, stored from the highest-degree term down to
/// the constant term. For example `[1, 2, -4]` is `x^2 + 2x - 4`.
#[derive(Debug, PartialEq, Eq)]
pub struct Poly {
    pub vec: Vec<isize>,
}

/// The value at `x` of the polynomial whose coefficients (highest degree first) are `s`,
/// computed by Horner's rule.
pub open spec fn peval(s: Seq<isize>, x: int) -> int
    decreases s.len(),
{
    if s.len() == 0 {
        0
    } else {
        peval(s.drop_last(), x) * x + s.last()
    }
}

/// Every coefficient of `s` is zero (the zero polynomial, including the empty one).
pub open spec fn all_zero(s: Seq<isize>) -> bool {
    forall|i: int| 0 <= i < s.len() ==> s[i] == 0
}

/// Every coefficient of `s` can be negated within `isize`.
pub open spec fn no_min(s: Seq<isize>) -> bool {
    forall|i: int| 0 <= i < s.len() ==> s[i] != isize::MIN
}

/// Every coefficient of `s` times `c` fits in `isize`.
pub open spec fn scalable(s: Seq<isize>, c: int) -> bool {
    forall|i: int| 0 <= i < s.len() ==> isize::MIN <= #[trigger] s[i] * c <= isize::MAX
}

/// The leading coefficient of `s`, or 0 for the empty polynomial.
pub open spec fn spec_lc(s: Seq<isize>) -> isize {
    if s.len() == 0 {
        0
    } else {
        s[0]
    }
}

/// `s` with its leading zero coefficients removed.
pub open spec fn strip_zeros(s: Seq<isize>) -> Seq<isize>
    decreases s.len(),
{
    if s.len() > 0 && s[0] == 0 {
        strip_zeros(s.drop_first())
    } else {
        s
    }
}

/// `n` zero coefficients.
pub open spec fn zeros(n: nat) -> Seq<isize> {
    Seq::new(n, |i: int| 0isize)
}

/// The coefficient at position `i` of `s` right-aligned (by degree) in a vector of length `n`.
pub open spec fn coef_at(s: Seq<isize>, n: int, i: int) -> int {
    if i < n - s.len() {
        0
    } else {
        s[i - (n - s.len())] as int
    }
}

/// The larger of two lengths.
pub open spec fn max_len(a: Seq<isize>, b: Seq<isize>) -> int {
    if a.len() >= b.len() {
        a.len() as int
    } else {
        b.len() as int
    }
}

/// The coefficient-wise difference of `a` and `b`, aligned by degree, before any leading
/// zeros are removed.
pub open spec fn aligned_sub(a: Seq<isize>, b: Seq<isize>) -> Seq<isize> {
    Seq::new(max_len(a, b) as nat, |i: int| sub_coef(a, b, i) as isize)
}

/// The coefficient at position `i` of the aligned difference of `a` and `b`.
pub open spec fn sub_coef(a: Seq<isize>, b: Seq<isize>, i: int) -> int {
    coef_at(a, max_len(a, b), i) - coef_at(b, max_len(a, b), i)
}

/// Every coefficient of the aligned difference of `a` and `b` fits in `isize`.
pub open spec fn sub_fits(a: Seq<isize>, b: Seq<isize>) -> bool {
    forall|i: int|
        0 <= i < max_len(a, b) ==> isize::MIN <= #[trigger] sub_coef(a, b, i) <= isize::MAX
}

/// The coefficients of `s` after adding the term `coeff * x^pow`.
pub open spec fn add_term_spec(s: Seq<isize>, coeff: isize, pow: int) -> Seq<isize> {
    if coeff == 0 {
        s
    } else if pow > s.len() - 1 {
        seq![coeff] + zeros((pow - s.len()) as nat) + s
    } else {
        s.update(s.len() - 1 - pow, (s[s.len() - 1 - pow] + coeff) as isize)
    }
}

/// Adding `coeff * x^pow` to `s` can be done without overflow.
pub open spec fn add_term_fits(s: Seq<isize>, coeff: isize, pow: int) -> bool {
    pow <= s.len() - 1 ==> isize::MIN <= s[s.len() - 1 - pow] + coeff <= isize::MAX
}

/// The coefficients of `s` multiplied by the term `coeff * x^pow`.
pub open spec fn mul_term_spec(s: Seq<isize>, coeff: isize, pow: int) -> Seq<isize> {
    if coeff == 0 || all_zero(s) {
        Seq::empty()
    } else {
        s.map_values(|v: isize| (v * coeff) as isize) + zeros(if pow > 0 {
            pow as nat
        } else {
            0
        })
    }
}

/// The gcd of the absolute values of `s[0..i)`, folded from the absolute value of `s[0]`
/// (which is what `primitive` folds over).
pub open spec fn fold_gcd(s: Seq<isize>, i: int) -> nat
    recommends
        s.len() > 0,
    decreases i,
{
    if i <= 0 {
        abs(s[0] as int) as nat
    } else {
        spec_gcd(abs(s[i - 1] as int) as nat, fold_gcd(s, i - 1))
    }
}

/// The content of `s`: the gcd of the absolute values of all its coefficients.
pub open spec fn content(s: Seq<isize>) -> nat {
    fold_gcd(s, s.len() as int)
}

/// `s` has no leading zero coefficient.
pub open spec fn normalized(s: Seq<isize>) -> bool {
    s.len() == 0 || s[0] != 0
}

/// Every nonzero term of `q` has degree greater than `m`.
pub open spec fn terms_above(q: Seq<isize>, m: int) -> bool {
    forall|j: int| 0 <= j < q.len() && q[j] != 0 ==> q.len() - 1 - j > m
}

/// Division stopped on `r` with divisor `o`: `r` is zero, of lower degree than `o`, or its
/// leading coefficient is not a multiple of the leading coefficient of `o`.
pub open spec fn division_stopped(r: Seq<isize>, o: Seq<isize>) -> bool {
    r.len() == 0 || r.len() < o.len() || (r[0] as int) % (o[0] as int) != 0
}

/// The outcome of polynomial division: `s == q * o + r` at every point, `r` is where division
/// stopped, `q` and `r` have no leading zeros, and every term of `q` has degree greater than
/// `deg r - deg o`.
pub open spec fn is_division(s: Seq<isize>, o: Seq<isize>, q: Seq<isize>, r: Seq<isize>) -> bool {
    &&& forall|x: int| #[trigger] peval(s, x) == peval(q, x) * peval(o, x) + peval(r, x)
    &&& division_stopped(r, o)
    &&& normalized(q)
    &&& normalized(r)
    &&& terms_above(q, r.len() - o.len())
}

/// Every step of dividing `r` by `o` stays within `isize`: while division has not stopped,
/// the quotient of the leading coefficients, the divisor times the next quotient term and the
/// subtraction of that product all fit, each step lowers the degree, and the same holds of
/// the next remainder.
pub open spec fn division_fits(r: Seq<isize>, o: Seq<isize>) -> bool
    decreases r.len(),
{
    if division_stopped(r, o) {
        true
    } else {
        let c = (r[0] as int) / (o[0] as int);
        let p = mul_term_spec(o, c as isize, r.len() - o.len());
        let next = strip_zeros(aligned_sub(r, p));
        &&& !(r[0] == isize::MIN && o[0] == -1)
        &&& scalable(o, c)
        &&& (p.len() == 0 || sub_fits(r, p))
        &&& next.len() < r.len()
        &&& division_fits(next, o)
    }
}

/// Error returned when a polynomial is divided by the empty polynomial.
pub open spec fn div_by_zero_msg() -> Seq<char> {
    "Cannot divide by a 0 polynomial"@
}

/// Error returned when polynomial division leaves the range of `isize`.
pub open spec fn div_overflow_msg() -> Seq<char> {
    "Arithmetic overflow in polynomial division"@
}

proof fn lemma_div_msgs_differ()
    ensures
        div_by_zero_msg() != div_overflow_msg(),
{
    reveal_strlit("Arithmetic overflow in polynomial division");
    reveal_strlit("Cannot divide by a 0 polynomial");
    assert(div_by_zero_msg().len() != div_overflow_msg().len());
}

/// Every intermediate value of Horner's rule for `s` at `x` fits in `isize`.
pub open spec fn horner_fits(s: Seq<isize>, x: int) -> bool {
    forall|i: int| 0 <= i < s.len() ==> #[trigger] horner_step_fits(s, x, i)
}

/// Step `i` of Horner's rule for `s` at `x` stays within `isize`.
pub open spec fn horner_step_fits(s: Seq<isize>, x: int, i: int) -> bool {
    isize::MIN <= peval(s.take(i), x) * x <= isize::MAX && isize::MIN <= peval(s.take(i + 1), x)
        <= isize::MAX
}

/// Evaluating a concatenation: `p ++ q` is `p * x^|q| + q`.
pub proof fn lemma_peval_concat(p: Seq<isize>, q: Seq<isize>, x: int)
    ensures
        peval(p + q, x) == peval(p, x) * pow(x, q.len()) + peval(q, x),
    decreases q.len(),
{
    reveal(pow);
    if q.len() == 0 {
        assert(p + q =~= p);
    } else {
        let q1 = q.drop_last();
        assert((p + q).drop_last() =~= p + q1);
        assert((p + q).last() == q.last());
        lemma_peval_concat(p, q1, x);
        assert(pow(x, q.len()) == x * pow(x, q1.len()));
        let pp = peval(p, x);
        let x1 = pow(x, q1.len());
        let v1 = peval(q1, x);
        assert((pp * x1 + v1) * x == pp * (x * x1) + v1 * x) by (nonlinear_arith);
    }
}

/// The zero polynomial evaluates to zero.
pub proof fn lemma_peval_all_zero(s: Seq<isize>, x: int)
    requires
        all_zero(s),
    ensures
        peval(s, x) == 0,
    decreases s.len(),
{
    if s.len() > 0 {
        lemma_peval_all_zero(s.drop_last(), x);
    }
}

/// Leading zero coefficients do not change the value.
pub proof fn lemma_peval_strip(s: Seq<isize>, x: int)
    ensures
        peval(strip_zeros(s), x) == peval(s, x),
    decreases s.len(),
{
    if s.len() > 0 && s[0] == 0 {
        let t = s.drop_first();
        lemma_peval_strip(t, x);
        assert(s =~= seq![0isize] + t);
        lemma_peval_concat(seq![0isize], t, x);
        assert(peval(seq![0isize], x) == 0) by {
            assert(seq![0isize].drop_last() =~= Seq::<isize>::empty());
            assert(peval(Seq::<isize>::empty(), x) == 0);
        }
    }
}

/// Coefficient-wise scaling scales the value.
pub proof fn lemma_peval_scale(a: Seq<isize>, c: Seq<isize>, k: int, x: int)
    requires
        a.len() == c.len(),
        forall|i: int| 0 <= i < a.len() ==> c[i] == a[i] * k,
    ensures
        peval(c, x) == peval(a, x) * k,
    decreases a.len(),
{
    if a.len() > 0 {
        lemma_peval_scale(a.drop_last(), c.drop_last(), k, x);
        lemma_mul_is_associative(peval(a.drop_last(), x), k, x);
        lemma_mul_is_associative(peval(a.drop_last(), x), x, k);
        lemma_mul_is_commutative(k, x);
        lemma_mul_is_distributive_add_other_way(k, peval(a.drop_last(), x) * x, a.last() as int);
    }
}

/// Coefficient-wise difference of two equally long polynomials is the difference of values.
pub proof fn lemma_peval_sub(a: Seq<isize>, b: Seq<isize>, c: Seq<isize>, x: int)
    requires
        a.len() == b.len(),
        a.len() == c.len(),
        forall|i: int| 0 <= i < a.len() ==> c[i] == a[i] - b[i],
    ensures
        peval(c, x) == peval(a, x) - peval(b, x),
    decreases a.len(),
{
    if a.len() > 0 {
        lemma_peval_sub(a.drop_last(), b.drop_last(), c.drop_last(), x);
        vstd::arithmetic::mul::lemma_mul_is_distributive_sub_other_way(
            x,
            peval(a.drop_last(), x),
            peval(b.drop_last(), x),
        );
    }
}

/// The absolute value of `x`.
pub fn iabs(x: isize) -> (r: isize)
    requires
        x != isize::MIN,
    ensures
        r == abs(x as int),
{
    if x < 0 {
        -x
    } else {
        x
    }
}

/// Removing `k` leading zeros, where `k` counts all of them, strips the polynomial.
proof fn lemma_strip_skip(s: Seq<isize>, k: int)
    requires
        0 <= k <= s.len(),
        forall|j: int| 0 <= j < k ==> s[j] == 0,
        k == s.len() || s[k] != 0,
    ensures
        strip_zeros(s) == s.skip(k),
    decreases k,
{
    if k == 0 {
        assert(s.skip(0) =~= s);
    } else {
        lemma_strip_skip(s.drop_first(), k - 1);
        assert(s.drop_first().skip(k - 1) =~= s.skip(k));
    }
}

/// The stripped polynomial has no leading zero, and is a suffix of the input.
pub proof fn lemma_strip_props(s: Seq<isize>)
    ensures
        strip_zeros(s).len() <= s.len(),
        strip_zeros(s).len() == 0 || strip_zeros(s)[0] != 0,
        strip_zeros(s) == s.skip(s.len() - strip_zeros(s).len()),
        forall|j: int| 0 <= j < s.len() - strip_zeros(s).len() ==> s[j] == 0,
    decreases s.len(),
{
    if s.len() > 0 && s[0] == 0 {
        lemma_strip_props(s.drop_first());
        let t = strip_zeros(s.drop_first());
        assert(s.drop_first().skip(s.len() - 1 - t.len()) =~= s.skip(s.len() - t.len()));
        assert forall|j: int| 0 <= j < s.len() - t.len() implies s[j] == 0 by {
            if j > 0 {
                assert(s[j] == s.drop_first()[j - 1]);
            }
        }
    } else {
        assert(s.skip(0) =~= s);
    }
}

/// Evaluating `n` zeros followed by `s` is evaluating `s`.
pub proof fn lemma_peval_pad(s: Seq<isize>, n: nat, x: int)
    ensures
        peval(zeros(n) + s, x) == peval(s, x),
{
    lemma_peval_concat(zeros(n), s, x);
    lemma_peval_all_zero(zeros(n), x);
}

/// Replacing the coefficient at index `k` changes the value by the difference times the
/// power of `x` of that position.
pub proof fn lemma_peval_update(s: Seq<isize>, k: int, v: isize, x: int)
    requires
        0 <= k < s.len(),
    ensures
        peval(s.update(k, v), x) == peval(s, x) + (v - s[k]) * pow(x, (s.len() - 1 - k) as nat),
{
    let t = s.update(k, v);
    let q = s.skip(k + 1);
    assert(s =~= s.take(k + 1) + q);
    assert(t =~= t.take(k + 1) + q);
    lemma_peval_concat(s.take(k + 1), q, x);
    lemma_peval_concat(t.take(k + 1), q, x);
    assert(s.take(k + 1).drop_last() =~= s.take(k));
    assert(t.take(k + 1).drop_last() =~= s.take(k));
    let e = pow(x, q.len());
    let pk = peval(s.take(k), x);
    assert((pk * x + v) * e == (pk * x + s[k]) * e + (v - s[k]) * e) by (nonlinear_arith);
}

/// Adding the term `coeff * x^pow` adds its value.
pub proof fn lemma_add_term_eval(s: Seq<isize>, coeff: isize, pow: int, x: int)
    requires
        pow >= 0,
        add_term_fits(s, coeff, pow),
    ensures
        peval(add_term_spec(s, coeff, pow), x) == peval(s, x) + coeff * vstd::arithmetic::power::pow(x, pow as nat),
{
    if coeff == 0 {
    } else if pow > s.len() - 1 {
        let z = zeros((pow - s.len()) as nat);
        assert(seq![coeff] + z + s =~= seq![coeff] + (z + s));
        lemma_peval_concat(seq![coeff], z + s, x);
        lemma_peval_pad(s, (pow - s.len()) as nat, x);
        assert(peval(seq![coeff], x) == coeff) by {
            assert(seq![coeff].drop_last() =~= Seq::<isize>::empty());
            assert(peval(Seq::<isize>::empty(), x) == 0);
        }
    } else {
        let k = s.len() - 1 - pow;
        lemma_peval_update(s, k, (s[k] + coeff) as isize, x);
    }
}

/// Multiplying by the term `coeff * x^pow` multiplies the value.
pub proof fn lemma_mul_term_eval(s: Seq<isize>, coeff: isize, pow: int, x: int)
    requires
        scalable(s, coeff as int),
    ensures
        peval(mul_term_spec(s, coeff, pow), x) == peval(s, x) * coeff
            * vstd::arithmetic::power::pow(x, if pow > 0 { pow as nat } else { 0 }),
{
    let k: nat = if pow > 0 {
        pow as nat
    } else {
        0
    };
    let e = vstd::arithmetic::power::pow(x, k);
    if coeff == 0 || all_zero(s) {
        if coeff != 0 {
            lemma_peval_all_zero(s, x);
        }
        assert(peval(s, x) * coeff * e == 0) by (nonlinear_arith)
            requires
                coeff == 0 || peval(s, x) == 0,
        ;
    } else {
        let m = s.map_values(|v: isize| (v * coeff) as isize);
        assert forall|i: int| 0 <= i < s.len() implies m[i] == s[i] * coeff by {
            assert(isize::MIN <= s[i] * coeff <= isize::MAX);
        }
        lemma_peval_scale(s, m, coeff as int, x);
        lemma_peval_concat(m, zeros(k), x);
        lemma_peval_all_zero(zeros(k), x);
    }
}

/// Subtraction of a nonempty polynomial subtracts its value.
pub proof fn lemma_sub_eval(a: Seq<isize>, b: Seq<isize>, x: int)
    requires
        b.len() > 0,
        sub_fits(a, b),
    ensures
        peval(strip_zeros(aligned_sub(a, b)), x) == peval(a, x) - peval(b, x),
{
    let n = max_len(a, b);
    let pa = zeros((n - a.len()) as nat) + a;
    let pb = zeros((n - b.len()) as nat) + b;
    let c = aligned_sub(a, b);
    assert forall|i: int| 0 <= i < n implies c[i] == pa[i] - pb[i] by {
        assert(isize::MIN <= sub_coef(a, b, i) <= isize::MAX);
        assert(pa[i] == coef_at(a, n, i));
        assert(pb[i] == coef_at(b, n, i));
    }
    lemma_peval_sub(pa, pb, c, x);
    lemma_peval_pad(a, (n - a.len()) as nat, x);
    lemma_peval_pad(b, (n - b.len()) as nat, x);
    lemma_peval_strip(c, x);
}

pub(crate) proof fn lemma_mod_trans(x: nat, d: nat, e: nat)
    requires
        d > 0,
        e > 0,
        x % d == 0,
        d % e == 0,
    ensures
        x % e == 0,
{
    vstd::arithmetic::div_mod::lemma_fundamental_div_mod(x as int, d as int);
    vstd::arithmetic::div_mod::lemma_fundamental_div_mod(d as int, e as int);
    let a = x / d;
    let b = d / e;
    assert(x == (a * b) * e) by (nonlinear_arith)
        requires
            x == d * a,
            d == e * b,
    ;
    vstd::arithmetic::div_mod::lemma_mod_multiples_basic((a * b) as int, e as int);
}

/// The folded gcd divides every coefficient folded so far, is zero exactly when they all are,
/// and never exceeds the largest absolute value among them.
pub proof fn lemma_fold_gcd(s: Seq<isize>, i: int)
    requires
        s.len() > 0,
        0 <= i <= s.len(),
        no_min(s),
    ensures
        fold_gcd(s, i) <= isize::MAX,
        fold_gcd(s, i) == 0 <==> (s[0] == 0 && forall|j: int| 0 <= j < i ==> s[j] == 0),
        fold_gcd(s, i) > 0 ==> abs(s[0] as int) as nat % fold_gcd(s, i) == 0,
        fold_gcd(s, i) > 0 ==> forall|j: int|
            0 <= j < i ==> #[trigger] (abs(s[j] as int) as nat) % fold_gcd(s, i) == 0,
    decreases i,
{
    if i > 0 {
        lemma_fold_gcd(s, i - 1);
        let a = abs(s[i - 1] as int) as nat;
        let g0 = fold_gcd(s, i - 1);
        let g = fold_gcd(s, i);
        assert(g == spec_gcd(a, g0));
        lemma_gcd_divides(a, g0);
        lemma_gcd_le(a, g0);
        if g > 0 {
            if g0 > 0 {
                lemma_mod_trans(abs(s[0] as int) as nat, g0, g);
                assert forall|j: int| 0 <= j < i implies #[trigger] (abs(s[j] as int) as nat) % g
                    == 0 by {
                    if j < i - 1 {
                        lemma_mod_trans(abs(s[j] as int) as nat, g0, g);
                    }
                }
            } else {
                assert forall|j: int| 0 <= j < i implies #[trigger] (abs(s[j] as int) as nat) % g
                    == 0 by {
                    if j < i - 1 {
                        assert(s[j] == 0);
                        vstd::arithmetic::div_mod::lemma_small_mod(0, g);
                    }
                }
                vstd::arithmetic::div_mod::lemma_small_mod(0, g);
            }
        }
        if s[0] == 0 && forall|j: int| 0 <= j < i ==> s[j] == 0 {
            assert(s[i - 1] == 0);
        }
    }
}

/// Whether `b` divides `a`, computed as Rust's truncating remainder `a % b` being zero.
fn rem_is_zero(a: isize, b: isize) -> (r: bool)
    requires
        b != 0,
    ensures
        r == ((a as int) % (b as int) == 0),
{
    let bb: i128 = if b < 0 {
        -(b as i128)
    } else {
        b as i128
    };
    let aa: i128 = if a < 0 {
        -(a as i128)
    } else {
        a as i128
    };
    let m = aa % bb;
    proof {
        let ai = a as int;
        let bi = b as int;
        vstd::arithmetic::div_mod::lemma_fundamental_div_mod(aa as int, bb as int);
        vstd::arithmetic::div_mod::lemma_fundamental_div_mod(ai, bi);
        let qa = (aa as int) / (bb as int);
        let qe = ai / bi;
        if m == 0 {
            // a is a multiple of b
            let k: int = if (a < 0) == (b < 0) { qa } else { -qa };
            assert(ai == k * bi) by (nonlinear_arith)
                requires
                    aa as int == bb as int * qa,
                    aa as int == (if ai < 0 { -ai } else { ai }),
                    bb as int == (if bi < 0 { -bi } else { bi }),
                    k == (if (ai < 0) == (bi < 0) { qa } else { -qa }),
            ;
            assert((k * bi) % bi == 0) by (nonlinear_arith)
                requires
                    bi != 0,
            ;
        } else {
            if ai % bi == 0 {
                let k: int = if (a < 0) == (b < 0) { qe } else { -qe };
                assert(aa as int == k * bb as int) by (nonlinear_arith)
                    requires
                        ai == bi * qe + 0,
                        aa as int == (if ai < 0 { -ai } else { ai }),
                        bb as int == (if bi < 0 { -bi } else { bi }),
                        k == (if (ai < 0) == (bi < 0) { qe } else { -qe }),
                ;
                vstd::arithmetic::div_mod::lemma_mod_multiples_basic(k, bb as int);
            }
        }
    }
    m == 0
}

/// The exact quotient `a / b` of a multiple `a` of `b`.
pub(crate) fn exact_quotient(a: isize, b: isize) -> (q: isize)
    requires
        b != 0,
        (a as int) % (b as int) == 0,
        !(a == isize::MIN && b == -1),
    ensures
        q * b == a,
{
    proof {
        vstd::arithmetic::div_mod::lemma_fundamental_div_mod(a as int, b as int);
    }
    let ghost k = (a as int) / (b as int);
    assert(a == b * k);
    let bb: i128 = if b < 0 {
        -(b as i128)
    } else {
        b as i128
    };
    let aa: i128 = if a < 0 {
        -(a as i128)
    } else {
        a as i128
    };
    let qq = aa / bb;
    proof {
        let kk: int = if (a < 0) == (b < 0) { k } else { -k };
        assert(aa as int == kk * bb as int) by (nonlinear_arith)
            requires
                a as int == b as int * k,
                aa as int == (if a < 0 { -(a as int) } else { a as int }),
                bb as int == (if b < 0 { -(b as int) } else { b as int }),
                kk == (if (a < 0) == (b < 0) { k } else { -k }),
        ;
        vstd::arithmetic::div_mod::lemma_div_multiples_vanish(kk, bb as int);
        assert(qq == kk) by (nonlinear_arith)
            requires
                aa as int == kk * bb as int,
                bb > 0,
                qq == (aa as int) / (bb as int),
                (bb as int * kk) / (bb as int) == kk,
        ;
        assert(k * (b as int) == a) by (nonlinear_arith)
            requires
                a as int == b as int * k,
        ;
        assert(isize::MIN <= k <= isize::MAX) by (nonlinear_arith)
            requires
                k * (b as int) == a as int,
                b != 0,
                !(a == isize::MIN && b == -1),
                isize::MIN <= a <= isize::MAX,
        ;
    }
    let q128: i128 = if (a < 0) == (b < 0) {
        qq
    } else {
        -qq
    };
    let q = q128 as isize;
    q
}

/// Whether every coefficient of `s` times `c` fits in `isize`.
pub(crate) fn check_scalable(s: &Vec<isize>, c: isize) -> (r: bool)
    ensures
        r == scalable(s@, c as int),
{
    for i in 0..s.len()
        invariant
            forall|j: int| 0 <= j < i ==> isize::MIN <= #[trigger] s@[j] * c <= isize::MAX,
    {
        if s[i].checked_mul(c).is_none() {
            return false;
        }
    }
    true
}

/// Whether every coefficient of the aligned difference of `a` and `b` fits in `isize`.
fn check_sub_fits(a: &Vec<isize>, b: &Vec<isize>) -> (r: bool)
    ensures
        r == sub_fits(a@, b@),
{
    let n = if a.len() >= b.len() {
        a.len()
    } else {
        b.len()
    };
    let oa = n - a.len();
    let ob = n - b.len();
    for i in 0..n
        invariant
            n == max_len(a@, b@),
            oa == n - a@.len(),
            ob == n - b@.len(),
            forall|j: int| 0 <= j < i ==> isize::MIN <= #[trigger] sub_coef(a@, b@, j) <= isize::MAX,
    {
        let ca: isize = if i < oa {
            0
        } else {
            a[i - oa]
        };
        let cb: isize = if i < ob {
            0
        } else {
            b[i - ob]
        };
        assert(sub_coef(a@, b@, i as int) == ca - cb);
        if ca.checked_sub(cb).is_none() {
            return false;
        }
    }
    true
}

/// Subtracting a polynomial of the same length and leading coefficient cancels the lead.
proof fn lemma_lead_cancels(a: Seq<isize>, b: Seq<isize>)
    requires
        a.len() == b.len(),
        a.len() > 0,
        a[0] == b[0],
    ensures
        aligned_sub(a, b)[0] == 0,
{
    assert(max_len(a, b) == a.len());
    assert(coef_at(a, a.len() as int, 0) == a[0]);
    assert(coef_at(b, a.len() as int, 0) == b[0]);
    assert(sub_coef(a, b, 0) == 0);
}

/// `terms_above` is weakened by lowering its bound.
proof fn lemma_terms_above_mono(q: Seq<isize>, m1: int, m2: int)
    requires
        terms_above(q, m1),
        m2 <= m1,
    ensures
        terms_above(q, m2),
{
}

impl Poly {
    /// Creates a new polynomial from its coefficients, highest degree first.
    pub fn new(vec: Vec<isize>) -> (r: Self)
        ensures
            r.vec@ == vec@,
    {
        Self { vec }
    }

    /// The empty polynomial.
    pub fn empty() -> (r: Self)
        ensures
            r.vec@ == Seq::<isize>::empty(),
    {
        Self::new(Vec::new())
    }

    /// A copy of `self` with the same coefficients.
    pub fn copy(&self) -> (r: Self)
        ensures
            r.vec@ == self.vec@,
    {
        let mut v: Vec<isize> = Vec::new();
        for i in 0..self.vec.len()
            invariant
                v@ == self.vec@.take(i as int),
        {
            v.push(self.vec[i]);
            assert(v@ =~= self.vec@.take(i + 1));
        }
        assert(self.vec@.take(self.vec.len() as int) =~= self.vec@);
        Self::new(v)
    }

    /// Whether the polynomial is zero: it has no terms, or every coefficient is 0.
    pub fn is_empty(&self) -> (r: bool)
        ensures
            r == all_zero(self.vec@),
    {
        if self.vec.len() == 0 {
            return true;
        }
        for i in 0..self.vec.len()
            invariant
                forall|j: int| 0 <= j < i ==> self.vec@[j] == 0,
        {
            if self.vec[i] != 0 {
                return false;
            }
        }
        true
    }

    /// Gets the degree of the polynomial: its number of coefficients minus one.
    pub fn deg(&self) -> (r: isize)
        requires
            self.vec@.len() <= isize::MAX,
        ensures
            r == self.vec@.len() - 1,
    {
        self.vec.len() as isize - 1
    }

    /// Returns the max norm of a polynomial: the largest absolute value of its coefficients.
    pub fn max_norm(&self) -> (r: usize)
        requires
            no_min(self.vec@),
        ensures
            forall|i: int| 0 <= i < self.vec@.len() ==> r >= abs(self.vec@[i] as int),
            self.vec@.len() == 0 ==> r == 0,
            self.vec@.len() > 0 ==> exists|i: int|
                0 <= i < self.vec@.len() && r == abs(#[trigger] self.vec@[i] as int),
    {
        let mut max_n: usize = 0;
        for i in 0..self.vec.len()
            invariant
                no_min(self.vec@),
                forall|j: int| 0 <= j < i ==> max_n >= abs(self.vec@[j] as int),
                i == 0 ==> max_n == 0,
                i > 0 ==> exists|j: int| 0 <= j < i && max_n == abs(#[trigger] self.vec@[j] as int),
        {
            let a = iabs(self.vec[i]) as usize;
            if a > max_n {
                max_n = a;
            }
        }
        max_n
    }

    /// Returns the leading coefficient, i.e. the coefficient of the highest-degree term.
    /// If the polynomial is empty, the leading coefficient is 0.
    pub fn lc(&self) -> (r: isize)
        ensures
            r == spec_lc(self.vec@),
    {
        if self.vec.len() == 0 {
            0
        } else {
            self.vec[0]
        }
    }

    /// Evaluates the polynomial at a value `x` with Horner's rule.
    pub fn eval(&self, x: isize) -> (r: isize)
        requires
            horner_fits(self.vec@, x as int),
        ensures
            r == peval(self.vec@, x as int),
    {
        let mut res: isize = 0;
        for i in 0..self.vec.len()
            invariant
                horner_fits(self.vec@, x as int),
                res == peval(self.vec@.take(i as int), x as int),
        {
            let ghost s = self.vec@;
            assert(s.take(i + 1).drop_last() =~= s.take(i as int));
            assert(horner_step_fits(s, x as int, i as int));
            res = res * x;
            res = res + self.vec[i];
        }
        assert(self.vec@.take(self.vec.len() as int) =~= self.vec@);
        res
    }

    /// Evaluates the polynomial at `x` like [`Poly::eval`], returning `None` where an
    /// intermediate value of Horner's rule leaves the range of `isize`.
    pub fn try_eval(&self, x: isize) -> (r: Option<isize>)
        ensures
            r is Some <==> horner_fits(self.vec@, x as int),
            r matches Some(v) ==> v == peval(self.vec@, x as int),
    {
        let mut res: isize = 0;
        let n = self.vec.len();
        for i in 0..n
            invariant
                n == self.vec@.len(),
                res == peval(self.vec@.take(i as int), x as int),
                forall|j: int| 0 <= j < i ==> #[trigger] horner_step_fits(self.vec@, x as int, j),
        {
            let ghost s = self.vec@;
            assert(s.take(i + 1).drop_last() =~= s.take(i as int));
            assert(peval(s.take(i + 1), x as int) == peval(s.take(i as int), x as int) * x + s[i as int]);
            match res.checked_mul(x) {
                None => {
                    assert(!horner_step_fits(s, x as int, i as int));
                    return None;
                },
                Some(m) => match m.checked_add(self.vec[i]) {
                    None => {
                        assert(!horner_step_fits(s, x as int, i as int));
                        return None;
                    },
                    Some(t) => {
                        res = t;
                    },
                },
            }
        }
        assert(self.vec@.take(self.vec.len() as int) =~= self.vec@);
        Some(res)
    }

    /// Multiplies each term in the polynomial by a scalar.
    pub fn mul_scalar(self, c: isize) -> (r: Self)
        requires
            scalable(self.vec@, c as int),
        ensures
            r.vec@.len() == self.vec@.len(),
            forall|i: int| 0 <= i < r.vec@.len() ==> r.vec@[i] == self.vec@[i] * c,
    {
        let mut v = self.vec;
        let ghost orig = v@;
        let n = v.len();
        for i in 0..n
            invariant
                n == orig.len(),
                v@.len() == orig.len(),
                scalable(orig, c as int),
                forall|j: int| 0 <= j < i ==> v@[j] == orig[j] * c,
                forall|j: int| i <= j < v@.len() ==> v@[j] == orig[j],
        {
            assert(isize::MIN <= orig[i as int] * c <= isize::MAX);
            let t = v[i] * c;
            v.set(i, t);
        }
        Self::new(v)
    }

    /// Removes leading zero terms in a polynomial.
    pub fn truncate_zeros(self) -> (r: Self)
        ensures
            r.vec@ == strip_zeros(self.vec@),
    {
        let n = self.vec.len();
        let mut count: usize = 0;
        while count < n
            invariant
                n == self.vec@.len(),
                count <= n,
                forall|j: int| 0 <= j < count ==> self.vec@[j] == 0,
            ensures
                count <= n,
                forall|j: int| 0 <= j < count ==> self.vec@[j] == 0,
                count == n || self.vec@[count as int] != 0,
            decreases n - count,
        {
            if self.vec[count] == 0 {
                count += 1;
            } else {
                break;
            }
        }
        proof {
            lemma_strip_skip(self.vec@, count as int);
        }
        let mut v: Vec<isize> = Vec::new();
        let mut i = count;
        while i < n
            invariant
                n == self.vec@.len(),
                count <= i <= n,
                v@ == self.vec@.subrange(count as int, i as int),
            decreases n - i,
        {
            v.push(self.vec[i]);
            assert(v@ =~= self.vec@.subrange(count as int, i + 1));
            i += 1;
        }
        assert(v@ =~= self.vec@.skip(count as int));
        Self::new(v)
    }

    /// Adds a term of form `coeff`x^`pow` to `self`.
    pub fn add_term(self, coeff: isize, pow: isize) -> (r: Self)
        requires
            pow >= 0,
            self.vec@.len() <= isize::MAX,
            add_term_fits(self.vec@, coeff, pow as int),
        ensures
            r.vec@ == add_term_spec(self.vec@, coeff, pow as int),
    {
        if coeff == 0 {
            return self;
        }
        let deg = self.deg();
        let ghost s = self.vec@;
        let mut v = self.vec;
        if pow == deg {
            // (x^2 + 2x + 3) + x^2
            let t = v[0] + coeff;
            v.set(0, t);
            Self::new(v)
        } else if pow >= deg {
            // (x^2 + 2x + 3) + x^4
            let extra_needed = pow - 1 - deg;
            let mut w: Vec<isize> = Vec::new();
            w.push(coeff);
            let mut k: isize = 0;
            while k < extra_needed
                invariant
                    0 <= k <= extra_needed,
                    w@ == seq![coeff] + zeros(k as nat),
                decreases extra_needed - k,
            {
                w.push(0);
                k += 1;
                assert(w@ =~= seq![coeff] + zeros(k as nat));
            }
            let n = v.len();
            for i in 0..n
                invariant
                    n == s.len(),
                    v@ == s,
                    w@ == seq![coeff] + zeros(extra_needed as nat) + s.take(i as int),
            {
                w.push(v[i]);
                assert(w@ =~= seq![coeff] + zeros(extra_needed as nat) + s.take(i + 1));
            }
            assert(s.take(n as int) =~= s);
            Self::new(w)
        } else {
            // (x^2 + 2x + 3) + 2x
            let idx = (deg - pow) as usize;
            let t = v[idx] + coeff;
            v.set(idx, t);
            Self::new(v)
        }
    }

    /// Multiplies a term of form `coeff`x^`pow` to `self`.
    pub fn mul_term(self, coeff: isize, pow: isize) -> (r: Self)
        requires
            scalable(self.vec@, coeff as int),
        ensures
            r.vec@ == mul_term_spec(self.vec@, coeff, pow as int),
    {
        if coeff == 0 || self.is_empty() {
            return Poly::empty();
        }
        let ghost s = self.vec@;
        let p = self.mul_scalar(coeff);
        let mut v = p.vec;
        assert(v@ =~= s.map_values(|v: isize| (v * coeff) as isize));
        let mut k: isize = 0;
        while k < pow
            invariant
                0 <= k,
                k <= pow || k == 0,
                v@ == s.map_values(|v: isize| (v * coeff) as isize) + zeros(k as nat),
            decreases pow - k,
        {
            v.push(0);
            k += 1;
            assert(v@ =~= s.map_values(|v: isize| (v * coeff) as isize) + zeros(k as nat));
        }
        Self::new(v)
    }

    /// Subtracts `other` from `self`, yielding a new polynomial whose leading zeros are removed.
    pub fn sub(self, other: Self) -> (r: Self)
        requires
            self.vec@.len() <= isize::MAX,
            other.vec@.len() <= isize::MAX,
            other.vec@.len() == 0 || sub_fits(self.vec@, other.vec@),
        ensures
            r.vec@ == strip_zeros(aligned_sub(self.vec@, other.vec@)),
    {
        if other.vec.len() == 0 {
            assert(aligned_sub(self.vec@, other.vec@) =~= self.vec@);
            return self.truncate_zeros();
        }
        let ghost a = self.vec@;
        let ghost b = other.vec@;
        let ghost n = max_len(a, b);
        let d_self = self.deg();
        let d_other = other.deg();
        if d_self == d_other {
            let mut v = self.vec;
            let len = v.len();
            let mut i = len;
            while i > 0
                invariant
                    len == a.len(),
                    len == b.len(),
                    n == len,
                    other.vec@ == b,
                    sub_fits(a, b),
                    v@.len() == len,
                    i <= len,
                    forall|j: int| 0 <= j < i ==> v@[j] == a[j],
                    forall|j: int| i <= j < len ==> v@[j] == a[j] - b[j],
                decreases i,
            {
                i -= 1;
                assert(coef_at(a, n, i as int) - coef_at(b, n, i as int) == a[i as int] - b[i as int]);
                assert(isize::MIN <= sub_coef(a, b, i as int) <= isize::MAX);
                let t = v[i] - other.vec[i];
                v.set(i, t);
            }
            assert(v@ =~= aligned_sub(a, b));
            Self::new(v).truncate_zeros()
        } else {
            let lhs = self.vec;
            let rhs = other.vec;
            let extra = iabs(d_self - d_other) as usize;
            let mut new_vec: Vec<isize> = Vec::new();
            let mut lhs2: Vec<isize> = Vec::new();
            let mut rhs2: Vec<isize> = Vec::new();
            if d_self > d_other {
                // (x^2 + x + 1) - (x + 1)
                for i in 0..extra
                    invariant
                        extra == a.len() - b.len(),
                        lhs@ == a,
                        new_vec@ == a.take(i as int),
                {
                    new_vec.push(lhs[i]);
                    assert(new_vec@ =~= a.take(i + 1));
                }
                let ln = lhs.len();
                for i in extra..ln
                    invariant
                        ln == a.len(),
                        extra <= ln,
                        lhs@ == a,
                        lhs2@ == a.subrange(extra as int, i as int),
                {
                    lhs2.push(lhs[i]);
                    assert(lhs2@ =~= a.subrange(extra as int, i + 1));
                }
                rhs2 = rhs;
            } else {
                // (x + 1) - (x^2 + x + 1)
                for i in 0..extra
                    invariant
                        extra == b.len() - a.len(),
                        rhs@ == b,
                        n == b.len(),
                        sub_fits(a, b),
                        new_vec@.len() == i,
                        forall|j: int| 0 <= j < i ==> new_vec@[j] == -b[j],
                {
                    assert(coef_at(a, n, i as int) - coef_at(b, n, i as int) == -b[i as int]);
                    assert(isize::MIN <= sub_coef(a, b, i as int) <= isize::MAX);
                    new_vec.push(-rhs[i]);
                }
                let rn = rhs.len();
                for i in extra..rn
                    invariant
                        rn == b.len(),
                        extra <= rn,
                        rhs@ == b,
                        rhs2@ == b.subrange(extra as int, i as int),
                {
                    rhs2.push(rhs[i]);
                    assert(rhs2@ =~= b.subrange(extra as int, i + 1));
                }
                lhs2 = lhs;
            }
            let ghost l0 = lhs2@;
            let m = if lhs2.len() < rhs2.len() {
                lhs2.len()
            } else {
                rhs2.len()
            };
            assert(l0.len() == rhs2@.len());
            for i in 0..m
                invariant
                    m == l0.len(),
                    m == rhs2@.len(),
                    lhs2@.len() == m,
                    n == extra + m,
                    d_self != d_other,
                    sub_fits(a, b),
                    d_self > d_other ==> l0 == a.subrange(extra as int, a.len() as int) && rhs2@
                        == b && n == a.len(),
                    d_self < d_other ==> rhs2@ == b.subrange(extra as int, b.len() as int) && l0
                        == a && n == b.len(),
                    forall|j: int| 0 <= j < i ==> lhs2@[j] == l0[j] - rhs2@[j],
                    forall|j: int| i <= j < m ==> lhs2@[j] == l0[j],
            {
                if d_self > d_other {
                    assert(n - a.len() == 0);
                    assert(n - b.len() == extra);
                    assert(l0[i as int] == a[extra + i]);
                    assert(coef_at(a, n, extra + i) == l0[i as int]);
                    assert(coef_at(b, n, extra + i) == rhs2@[i as int]);
                } else {
                    assert(coef_at(a, n, extra + i) == l0[i as int]);
                    assert(coef_at(b, n, extra + i) == rhs2@[i as int]);
                }
                assert(isize::MIN <= sub_coef(a, b, extra + i) <= isize::MAX);
                let t = lhs2[i] - rhs2[i];
                lhs2.set(i, t);
            }
            let ghost nv = new_vec@;
            let ghost l2 = lhs2@;
            new_vec.append(&mut lhs2);
            assert(new_vec@ =~= aligned_sub(a, b)) by {
                assert forall|j: int| 0 <= j < n implies new_vec@[j] == aligned_sub(a, b)[j] by {
                    if j < extra {
                        assert(new_vec@[j] == nv[j]);
                    } else {
                        assert(new_vec@[j] == l2[j - extra]);
                        if d_self > d_other {
                            assert(coef_at(a, n, j) == l0[j - extra]);
                            assert(coef_at(b, n, j) == rhs2@[j - extra]);
                        } else {
                            assert(coef_at(a, n, j) == l0[j - extra]);
                            assert(coef_at(b, n, j) == rhs2@[j - extra]);
                        }
                    }
                }
            }
            Self::new(new_vec).truncate_zeros()
        }
    }

    /// Returns the primitive part of `self` over the integers: `self` divided by the gcd of
    /// its coefficients. A zero polynomial, or one whose content is 1, is returned as is.
    pub fn primitive(self) -> (r: Self)
        requires
            no_min(self.vec@),
        ensures
            all_zero(self.vec@) || content(self.vec@) == 1 ==> r.vec@ == self.vec@,
            !all_zero(self.vec@) ==> content(self.vec@) > 0,
            !all_zero(self.vec@) && content(self.vec@) != 1 ==> r.vec@.len() == self.vec@.len()
                && forall|i: int|
                0 <= i < r.vec@.len() ==> #[trigger] r.vec@[i] * content(self.vec@)
                    == self.vec@[i],
    {
        if self.is_empty() {
            return self;
        }
        let ghost s = self.vec@;
        let n = self.vec.len();
        let mut largest: u64 = iabs(self.vec[0]) as u64;
        for i in 0..n
            invariant
                n == s.len(),
                s == self.vec@,
                no_min(s),
                n > 0,
                largest == fold_gcd(s, i as int),
        {
            proof {
                lemma_fold_gcd(s, i as int);
            }
            largest = gcd(iabs(self.vec[i]) as u64, largest);
        }
        proof {
            lemma_fold_gcd(s, n as int);
            if largest == 0 {
                assert(all_zero(s));
            }
        }
        let largest_gcd = largest as isize;
        if largest_gcd == 1 {
            self
        } else {
            let mut v: Vec<isize> = Vec::new();
            for i in 0..n
                invariant
                    n == s.len(),
                    s == self.vec@,
                    largest_gcd > 0,
                    largest_gcd == content(s),
                    forall|j: int| 0 <= j < n ==> #[trigger] (abs(s[j] as int) as nat) % (largest_gcd as nat) == 0,
                    v@.len() == i,
                    forall|j: int| 0 <= j < i ==> #[trigger] v@[j] * largest_gcd == s[j],
            {
                let e = self.vec[i];
                let q = e / largest_gcd;
                proof {
                    let g = largest_gcd as int;
                    let ei = e as int;
                    assert((abs(ei) as nat) % (g as nat) == 0);
                    let ab: int = abs(ei) as int;
                    vstd::arithmetic::div_mod::lemma_fundamental_div_mod(ab, g);
                    let k: int = ab / g;
                    assert(ab == g * k);
                    if ei >= 0 {
                        assert(ei == k * g) by (nonlinear_arith) requires ab == g * k, ei >= 0, ab == ei;
                        assert(ei / g == k) by (nonlinear_arith) requires ei == k * g, g > 0;
                    } else {
                        assert(ei == (-k) * g) by (nonlinear_arith) requires ab == g * k, ei < 0, ab == -ei;
                        assert(ei / g == -k) by (nonlinear_arith) requires ei == (-k) * g, g > 0;
                    }
                    assert(q * g == ei);
                }
                v.push(q);
            }
            Poly::new(v)
        }
    }

    /// Divides one polynomial by another, returning a tuple of (quotient, remainder) or an
    /// error. Division proceeds term by term, and stops at the first remainder whose leading
    /// coefficient is not a multiple of the divisor's (only integer division is supported).
    /// Dividing by a zero polynomial is an error; leading zero coefficients of the divisor do
    /// not change it. The result is `Ok` exactly when no step of the division leaves the range
    /// of `isize`.
    pub fn div(self, other: Poly) -> (res: Result<(Self, Self), &'static str>)
        requires
            self.vec@.len() <= isize::MAX,
            other.vec@.len() <= isize::MAX,
        ensures
            all_zero(other.vec@) <==> (res matches Err(e) && e@ == div_by_zero_msg()),
            !all_zero(other.vec@) && self.vec@.len() < strip_zeros(other.vec@).len() ==> (
            res matches Ok((q, r)) && q.vec@ == Seq::<isize>::empty() && r.vec@ == self.vec@),
            !all_zero(other.vec@) && self.vec@.len() >= strip_zeros(other.vec@).len() ==> match res {
                Ok((q, r)) => is_division(self.vec@, strip_zeros(other.vec@), q.vec@, r.vec@),
                Err(e) => e@ == div_overflow_msg(),
            },
            !all_zero(other.vec@) && self.vec@.len() >= strip_zeros(other.vec@).len() ==> (res is Ok
                <==> division_fits(strip_zeros(self.vec@), strip_zeros(other.vec@))),
            res matches Ok((q, r)) ==> q.vec@.len() <= self.vec@.len() && r.vec@.len()
                <= self.vec@.len(),
    {
        let ghost s = self.vec@;
        let ghost o0 = other.vec@;
        if other.vec.len() == 0 {
            return Err("Cannot divide by a 0 polynomial");
        }
        // Leading zero coefficients do not change the divisor.
        let divisor = other.copy().truncate_zeros();
        let ghost o = divisor.vec@;
        proof {
            lemma_strip_props(o0);
            if o.len() > 0 {
                assert(!all_zero(o0));
            } else {
                assert forall|i: int| 0 <= i < o0.len() implies o0[i] == 0 by {
                    assert(o0.len() - o.len() == o0.len());
                }
            }
        }
        if divisor.vec.len() == 0 {
            return Err("Cannot divide by a 0 polynomial");
        }
        proof {
            lemma_div_msgs_differ();
        }
        let d_self = self.deg();
        let d_other = divisor.deg();
        if d_self < d_other {
            return Ok((Poly::empty(), Poly::new(self.vec)));
        }
        let lc_other = divisor.lc();
        let mut rem_poly = self.truncate_zeros();
        proof {
            lemma_strip_props(s);
        }
        let mut d_rem = rem_poly.deg();
        let mut quo = Poly::empty();
        proof {
            assert forall|x: int| #[trigger] peval(s, x) == peval(quo.vec@, x) * peval(o, x)
                + peval(rem_poly.vec@, x) by {
                assert(peval(quo.vec@, x) == 0);
                lemma_peval_strip(s, x);
            }
        }
        if d_rem < d_other {
            return Ok((quo, rem_poly));
        }
        loop
            invariant_except_break
                d_rem >= d_other,
                terms_above(quo.vec@, d_rem - d_other),
            invariant
                d_rem == rem_poly.vec@.len() - 1,
                normalized(rem_poly.vec@),
                divisor.vec@ == o,
                other.vec@ == o0,
                o == strip_zeros(o0),
                !all_zero(o0),
                o.len() > 0,
                o[0] != 0,
                lc_other == o[0],
                d_other == o.len() - 1,
                s.len() <= isize::MAX,
                s.len() >= o.len(),
                s == self.vec@,
                rem_poly.vec@.len() <= s.len(),
                quo.vec@.len() <= s.len(),
                normalized(quo.vec@),
                forall|x: int| #[trigger] peval(s, x) == peval(quo.vec@, x) * peval(o, x)
                    + peval(rem_poly.vec@, x),
                division_fits(strip_zeros(s), o) == division_fits(rem_poly.vec@, o),
            ensures
                division_stopped(rem_poly.vec@, o),
                terms_above(quo.vec@, rem_poly.vec@.len() - o.len()),
            decreases rem_poly.vec@.len(),
        {
            let ghost rem0 = rem_poly.vec@;
            let ghost quo0 = quo.vec@;
            let lc_rem = rem_poly.lc();
            assert(rem0[0] != 0);
            if lc_rem == isize::MIN && lc_other == -1 {
                proof {
                    lemma_div_msgs_differ();
                    assert((lc_rem as int) % (lc_other as int) == 0) by (nonlinear_arith)
                        requires
                            lc_other == -1,
                    ;
                    assert(!division_fits(rem0, o));
                }
                return Err("Arithmetic overflow in polynomial division");
            }
            // Currently, this only supports integer division.
            if !rem_is_zero(lc_rem, lc_other) {
                // The current iteration won't divide evenly, so we're done.
                break;
            }
            let cur_term_coeff = exact_quotient(lc_rem, lc_other);
            assert(cur_term_coeff * lc_other == lc_rem);
            let k = d_rem - d_other;
            proof {
                assert((lc_rem as int) / (lc_other as int) == cur_term_coeff) by {
                    vstd::arithmetic::div_mod::lemma_fundamental_div_mod(
                        lc_rem as int,
                        lc_other as int,
                    );
                    let q = (lc_rem as int) / (lc_other as int);
                    assert(q == cur_term_coeff) by (nonlinear_arith)
                        requires
                            lc_rem == lc_other * q,
                            cur_term_coeff * lc_other == lc_rem,
                            lc_other != 0,
                    ;
                }
                assert(lc_rem != 0);
                assert(cur_term_coeff != 0) by (nonlinear_arith)
                    requires
                        cur_term_coeff * lc_other == lc_rem,
                        lc_rem != 0,
                ;
                if k <= quo0.len() - 1 {
                    let idx = quo0.len() - 1 - k;
                    assert(quo0[idx] == 0);
                }
            }
            quo = quo.add_term(cur_term_coeff, k);
            if !check_scalable(&divisor.vec, cur_term_coeff) {
                proof {
                    lemma_div_msgs_differ();
                    assert(!division_fits(rem0, o));
                }
                return Err("Arithmetic overflow in polynomial division");
            }
            let term = divisor.copy().mul_term(cur_term_coeff, k);
            if term.vec.len() > 0 && !check_sub_fits(&rem_poly.vec, &term.vec) {
                proof {
                    lemma_div_msgs_differ();
                    assert(!division_fits(rem0, o));
                }
                return Err("Arithmetic overflow in polynomial division");
            }
            let ghost p = term.vec@;
            rem_poly = rem_poly.sub(
                // Subtract (current term coeff * rhs) from the rest of polynomial we need to
                // divide.
                term,
            );
            proof {
                let kn: nat = k as nat;
                assert((if k > 0 { k as nat } else { 0nat }) == kn);
                assert(o[0] != 0);
                assert(!all_zero(o));
                assert(cur_term_coeff != 0);
                assert(p[0] == (o[0] * cur_term_coeff) as isize);
                assert(isize::MIN <= o[0] * cur_term_coeff <= isize::MAX);
                assert forall|x: int| #[trigger] peval(s, x) == peval(quo.vec@, x) * peval(o, x)
                    + peval(rem_poly.vec@, x) by {
                    lemma_add_term_eval(quo0, cur_term_coeff, k as int, x);
                    lemma_mul_term_eval(o, cur_term_coeff, k as int, x);
                    let e = pow(x, kn);
                    let qv = peval(quo0, x);
                    let ov = peval(o, x);
                    let rv = peval(rem0, x);
                    let c = cur_term_coeff as int;
                    assert(peval(quo.vec@, x) == qv + c * e);
                    assert(peval(p, x) == ov * c * e);
                    lemma_sub_eval(rem0, p, x);
                    assert(peval(rem_poly.vec@, x) == rv - ov * c * e);
                    assert(peval(s, x) == qv * ov + rv);
                    assert((qv + c * e) * ov + (rv - ov * c * e) == qv * ov + rv)
                        by (nonlinear_arith);
                }
                assert(p.len() == rem0.len());
                assert(p[0] == o[0] * cur_term_coeff);
                assert(rem0[0] == lc_rem);
                assert(o[0] * cur_term_coeff == lc_rem) by (nonlinear_arith)
                    requires
                        cur_term_coeff * lc_other == lc_rem,
                        o[0] == lc_other,
                ;
                assert(p[0] == rem0[0]);
                lemma_lead_cancels(rem0, p);
                lemma_strip_props(aligned_sub(rem0, p));
                lemma_strip_props(aligned_sub(rem0, p).drop_first());
                assert(strip_zeros(aligned_sub(rem0, p)) == strip_zeros(
                    aligned_sub(rem0, p).drop_first(),
                ));
                assert(rem_poly.vec@.len() < rem0.len());
                lemma_strip_props(aligned_sub(rem0, p));
                assert(division_fits(rem0, o) == division_fits(rem_poly.vec@, o));
            }
            let d_rem_old = d_rem;
            d_rem = rem_poly.deg();
            if d_rem < d_other {
                proof {
                    lemma_terms_above_mono(quo.vec@, k - 1, rem_poly.vec@.len() - o.len());
                }
                break;
            } else if d_rem >= d_rem_old {
                return Err("Unexpected state: remainder degreee not lower after division");
            }
            proof {
                lemma_terms_above_mono(quo.vec@, k - 1, d_rem - d_other);
            }
        }
        Ok((quo, rem_poly))
    }

    /// Negates each term of the polynomial.
    pub fn negate(self) -> (r: Self)
        requires
            no_min(self.vec@),
        ensures
            r.vec@.len() == self.vec@.len(),
            forall|i: int| 0 <= i < r.vec@.len() ==> r.vec@[i] == -self.vec@[i],
    {
        self.mul_scalar(-1)
    }

    /// Divides each term in the polynomial by a scalar, rounding each quotient toward zero.
    /// If the scalar divisor is 0, an error is returned.
    pub fn div_scalar(self, c: isize) -> (r: Result<Self, &'static str>)
        requires
            c == -1 ==> no_min(self.vec@),
        ensures
            c == 0 <==> r is Err,
            r matches Err(e) ==> e@ == "Cannot divide a polynomial by 0"@,
            r matches Ok(p) ==> p.vec@.len() == self.vec@.len() && forall|i: int|
                0 <= i < p.vec@.len() ==> #[trigger] p.vec@[i] == trunc_div(
                    self.vec@[i] as int,
                    c as int,
                ),
    {
        if c == 0 {
            return Err("Cannot divide a polynomial by 0");
        }
        let mut v = self.vec;
        let ghost orig = v@;
        let n = v.len();
        for i in 0..n
            invariant
                n == orig.len(),
                v@.len() == orig.len(),
                c != 0,
                c == -1 ==> no_min(orig),
                forall|j: int| 0 <= j < i ==> v@[j] == trunc_div(orig[j] as int, c as int),
                forall|j: int| i <= j < v@.len() ==> v@[j] == orig[j],
        {
            assert(v@[i as int] == orig[i as int]);
            assert(c == -1 ==> orig[i as int] != isize::MIN);
            let t = trunc_div_isize(v[i], c);
            v.set(i, t);
        }
        Ok(Poly::new(v))
    }
}

/// `a / b` rounded toward zero.
pub open spec fn trunc_div(a: int, b: int) -> int {
    let q: int = (abs(a) / abs(b)) as int;
    if (a >= 0) == (b > 0) {
        q
    } else {
        -q
    }
}

/// `a / b` rounded toward zero, for `b != 0` and no overflow.
fn trunc_div_isize(a: isize, b: isize) -> (r: isize)
    requires
        b != 0,
        !(a == isize::MIN && b == -1),
    ensures
        r == trunc_div(a as int, b as int),
{
    let aa: u128 = if a >= 0 {
        a as u128
    } else {
        (-(a as i128)) as u128
    };
    let bb: u128 = if b >= 0 {
        b as u128
    } else {
        (-(b as i128)) as u128
    };
    let q = aa / bb;
    assert(q <= aa);
    if (a >= 0) == (b > 0) {
        proof {
            if a == isize::MIN {
                assert(bb >= 2);
                assert(q <= aa / 2) by (nonlinear_arith)
                    requires
                        q == aa / bb,
                        bb >= 2,
                ;
            }
        }
        q as isize
    } else {
        -(q as i128) as isize
    }
}


} // verus!
