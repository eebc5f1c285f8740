use crate::math::gcd::{gcd, lemma_gcd_divides, lemma_gcd_le, lemma_gcd_one, spec_gcd};
use crate::math::poly::{
    Poly, all_zero, check_scalable, content, exact_quotient, horner_fits, iabs, is_division,
    lemma_mod_trans, lemma_peval_scale, lemma_peval_strip, lemma_strip_props, no_min,
    normalized, peval, strip_zeros,
};
use vstd::arithmetic::power::pow;
use vstd::math::abs;
use vstd::prelude::*;

verus! {

/// The integer square root of `n`: the largest `r` with `r * r <= n`.
fn isqrt(n: u64) -> (r: u64)
    ensures
        r * r <= n < (r + 1) * (r + 1),
        r < 0x1_0000_0000,
        n >= 1 ==> r >= 1,
{
    let mut lo: u128 = 0;
    let mut hi: u128 = 0x1_0000_0000;
    assert(hi * hi > n) by (nonlinear_arith)
        requires
            hi == 0x1_0000_0000,
            n <= u64::MAX,
    ;
    while hi - lo > 1
        invariant
            lo < hi <= 0x1_0000_0000,
            lo * lo <= n,
            n < hi * hi,
        decreases hi - lo,
    {
        let mid = lo + (hi - lo) / 2;
        assert(mid * mid <= 0x1_0000_0000 * 0x1_0000_0000) by (nonlinear_arith)
            requires
                mid <= 0x1_0000_0000,
        ;
        if mid * mid <= n as u128 {
            lo = mid;
        } else {
            hi = mid;
        }
    }
    assert(hi == lo + 1);
    assert(n >= 1 ==> lo >= 1) by {
        if lo == 0 {
            assert(hi * hi == 1) by (nonlinear_arith)
                requires
                    hi == 1,
            ;
        }
    }
    lo as u64
}

/// The interpolation identity: `h` is the value at `x` of the coefficients `c`.
pub open spec fn interpolates(c: Seq<isize>, h: int, x: int) -> bool {
    peval(c, x) == h
}

/// One step of `gcd_interpolate`: the remainder `g` of `h` by `x` (moved into `(-x/2, x/2]`
/// for nonnegative `h`) and the next value `h2 = (h - g) / x`.
proof fn lemma_interpolate_step(h: int, x: int, g: int, h2: int)
    requires
        x >= 2,
        h != 0,
        h >= 0 ==> (g == h % x || (h % x > x / 2 && g == h % x - x)),
        h >= 0 ==> (g == h % x <==> h % x <= x / 2),
        h < 0 ==> g == -((-h) % x),
        h - g >= 0 ==> h2 == (h - g) / x,
        h - g < 0 ==> h2 == -((g - h) / x),
    ensures
        h == h2 * x + g,
        abs(h2) + 1 <= abs(h),
        h >= 0 ==> 0 <= h2 < h,
        h < 0 ==> h <= h2 <= 0,
        h2 == 0 ==> g == h,
        -x < g <= x / 2 || (h < 0 && -x < g <= 0),
{
    lemma_interpolate_step_core(h, x, g, h2);
    if h2 == 0 {
        assert(h2 * x == 0) by (nonlinear_arith)
            requires
                h2 == 0,
        ;
    }
}

proof fn lemma_interpolate_step_core(h: int, x: int, g: int, h2: int)
    requires
        x >= 2,
        h != 0,
        h >= 0 ==> (g == h % x || (h % x > x / 2 && g == h % x - x)),
        h >= 0 ==> (g == h % x <==> h % x <= x / 2),
        h < 0 ==> g == -((-h) % x),
        h - g >= 0 ==> h2 == (h - g) / x,
        h - g < 0 ==> h2 == -((g - h) / x),
    ensures
        h == h2 * x + g,
        abs(h2) + 1 <= abs(h),
        h >= 0 ==> 0 <= h2 < h,
        h < 0 ==> h <= h2 <= 0,
        -x < g <= x / 2 || (h < 0 && -x < g <= 0),
{
    vstd::arithmetic::div_mod::lemma_fundamental_div_mod(h, x);
    if h < 0 {
        vstd::arithmetic::div_mod::lemma_fundamental_div_mod(-h, x);
        let q = (-h) / x;
        let m = (-h) % x;
        assert(0 <= m < x);
        assert(-h == x * q + m);
        assert(q >= 0) by (nonlinear_arith)
            requires
                -h == x * q + m,
                m < x,
                -h > 0,
                x >= 2,
        ;
        assert(g - h == x * q);
        vstd::arithmetic::div_mod::lemma_div_multiples_vanish(q, x);
        assert(h2 == -q);
        assert(h == h2 * x + g) by (nonlinear_arith)
            requires
                g - h == x * q,
                h2 == -q,
        ;
        assert(q < -h) by (nonlinear_arith)
            requires
                -h == x * q + m,
                m >= 0,
                x >= 2,
                -h > 0,
                q >= 0,
        ;
    } else {
        let q = h / x;
        let m = h % x;
        assert(0 <= m < x);
        assert(h == x * q + m);
        assert(q >= 0) by (nonlinear_arith)
            requires
                h == x * q + m,
                m < x,
                h > 0,
                x >= 2,
        ;
        if g == m {
            assert(h - g == x * q);
            vstd::arithmetic::div_mod::lemma_div_multiples_vanish(q, x);
            assert(h2 == q);
            assert(h == h2 * x + g) by (nonlinear_arith)
                requires
                    h - g == x * q,
                    h2 == q,
            ;
            assert(q < h) by (nonlinear_arith)
                requires
                    h == x * q + m,
                    m >= 0,
                    x >= 2,
                    h > 0,
                    q >= 0,
            ;
        } else {
            assert(h - g == x * (q + 1)) by (nonlinear_arith)
                requires
                    g == m - x,
                    h == x * q + m,
            ;
            assert(x * (q + 1) >= 0) by (nonlinear_arith)
                requires
                    x >= 2,
                    q >= 0,
            ;
            vstd::arithmetic::div_mod::lemma_div_multiples_vanish(q + 1, x);
            assert(h2 == q + 1);
            assert(h == h2 * x + g) by (nonlinear_arith)
                requires
                    h - g == x * (q + 1),
                    h2 == q + 1,
            ;
            assert(m >= 2);
            assert(q + 1 < h) by (nonlinear_arith)
                requires
                    h == x * q + m,
                    m >= 2,
                    x >= 2,
                    q >= 0,
            ;
        }
    }
}

/// Interpolates the step-wise remainders of `h` by `x` (each remainder of a nonnegative value
/// moved into `(-x/2, x/2]`) into a polynomial whose value at `x` is `h`.
pub fn gcd_interpolate(h: isize, x: isize) -> (r: Poly)
    requires
        x >= 2,
        -(isize::MAX - x) <= h <= isize::MAX - x,
    ensures
        peval(r.vec@, x as int) == h,
        normalized(r.vec@),
        r.vec@.len() == 0 <==> h == 0,
        r.vec@.len() <= isize::MAX,
        forall|i: int| 0 <= i < r.vec@.len() ==> -x < #[trigger] r.vec@[i] <= x / 2,
{
    let ghost h0 = h;
    let mut h = h;
    let mut res: Vec<isize> = Vec::new();
    let ghost mut hi: Seq<isize> = Seq::empty();
    let mut g: isize;
    proof {
        vstd::arithmetic::power::lemma_pow0(x as int);
    }
    while h != 0
        invariant
            x >= 2,
            -(isize::MAX - x) <= h0 <= isize::MAX - x,
            -(isize::MAX - x) <= h <= isize::MAX - x,
            res@.len() == hi.len(),
            forall|j: int| 0 <= j < res@.len() ==> res@[j] == hi[hi.len() - 1 - j],
            h0 == h * pow(x as int, hi.len()) + peval(hi, x as int),
            h == 0 && hi.len() > 0 ==> hi[0] != 0,
            hi.len() + abs(h as int) <= abs(h0 as int),
            hi.len() == 0 ==> h == h0,
            forall|j: int| 0 <= j < hi.len() ==> -x < #[trigger] hi[j] <= x / 2,
        decreases abs(h as int),
    {
        g = h % x;
        if g > x / 2 {
            g -= x
        }
        res.push(g);
        let ghost old_hi = hi;
        let ghost hh = h;
        h = (h - g) / x;
        proof {
            lemma_interpolate_step(hh as int, x as int, g as int, h as int);
            hi = seq![g] + old_hi;
            crate::math::poly::lemma_peval_concat(seq![g], old_hi, x as int);
            assert(peval(seq![g], x as int) == g) by {
                assert(seq![g].drop_last() =~= Seq::<isize>::empty());
                assert(peval(Seq::<isize>::empty(), x as int) == 0);
            }
            let e = pow(x as int, old_hi.len());
            vstd::arithmetic::power::lemma_pow_adds(x as int, old_hi.len(), 1);
            vstd::arithmetic::power::lemma_pow1(x as int);
            assert(pow(x as int, hi.len()) == e * x);
            assert(hh * e == h * (e * x) + g * e) by (nonlinear_arith)
                requires
                    hh == h * x + g,
            ;
        }
    }
    let mut out: Vec<isize> = Vec::new();
    let n = res.len();
    for i in 0..n
        invariant
            n == res@.len(),
            n == hi.len(),
            forall|j: int| 0 <= j < n ==> res@[j] == hi[hi.len() - 1 - j],
            forall|j: int| 0 <= j < hi.len() ==> -x < #[trigger] hi[j] <= x / 2,
            x >= 2,
            out@.len() == i,
            forall|j: int| 0 <= j < i ==> out@[j] == res@[n - 1 - j],
    {
        out.push(res[n - 1 - i]);
    }
    assert(out@ =~= hi);
    assert(pow(x as int, hi.len()) * 0 == 0);
    Poly::new(out)
}

/// The gcd of the absolute values of the coefficients `s[0..i)`, folded from 0 (`gcd(0, a)` is
/// `a`).
pub open spec fn coeffs_gcd_fold(s: Seq<isize>, i: int) -> nat
    decreases i,
{
    if i <= 0 {
        0
    } else {
        spec_gcd(coeffs_gcd_fold(s, i - 1), abs(s[i - 1] as int) as nat)
    }
}

/// The content of a polynomial: the gcd of the absolute values of its coefficients (0 for the
/// zero polynomial).
pub open spec fn coeffs_gcd(s: Seq<isize>) -> nat {
    coeffs_gcd_fold(s, s.len() as int)
}

/// The constant that `poly_extract_common` takes out of `f` and `g`.
pub open spec fn common_content(f: Seq<isize>, g: Seq<isize>) -> nat {
    spec_gcd(coeffs_gcd(f), coeffs_gcd(g))
}

/// `s` with every coefficient divided by the common content `c`, which divides each of them;
/// unchanged when `c` is 0 (both polynomials are zero).
pub open spec fn divided_by_content(s: Seq<isize>, c: nat) -> Seq<isize> {
    if c == 0 {
        s
    } else {
        Seq::new(s.len(), |i: int| ((s[i] as int) / (c as int)) as isize)
    }
}

/// Once the fold reaches 1 it stays 1.
proof fn lemma_coeffs_gcd_one(s: Seq<isize>, i: int, j: int)
    requires
        0 <= i <= j,
        coeffs_gcd_fold(s, i) == 1,
    ensures
        coeffs_gcd_fold(s, j) == 1,
    decreases j - i,
{
    if j > i {
        lemma_coeffs_gcd_one(s, i, j - 1);
        lemma_gcd_one(abs(s[j - 1] as int) as nat);
    }
}

/// The fold divides the absolute value of every coefficient folded so far, and is zero exactly
/// when all of them are.
proof fn lemma_coeffs_gcd_divides(s: Seq<isize>, i: int)
    requires
        0 <= i <= s.len(),
    ensures
        coeffs_gcd_fold(s, i) == 0 <==> forall|j: int| 0 <= j < i ==> s[j] == 0,
        coeffs_gcd_fold(s, i) > 0 ==> forall|j: int|
            0 <= j < i ==> #[trigger] (abs(s[j] as int) as nat) % coeffs_gcd_fold(s, i) == 0,
    decreases i,
{
    if i > 0 {
        lemma_coeffs_gcd_divides(s, i - 1);
        let a = abs(s[i - 1] as int) as nat;
        let g0 = coeffs_gcd_fold(s, i - 1);
        let g = coeffs_gcd_fold(s, i);
        lemma_gcd_divides(g0, a);
        if g > 0 {
            assert forall|j: int| 0 <= j < i implies #[trigger] (abs(s[j] as int) as nat) % g
                == 0 by {
                if j < i - 1 {
                    if g0 > 0 {
                        lemma_mod_trans(abs(s[j] as int) as nat, g0, g);
                    } else {
                        assert(s[j] == 0);
                        vstd::arithmetic::div_mod::lemma_small_mod(0, g);
                    }
                }
            }
        }
        if g == 0 {
            assert forall|j: int| 0 <= j < i implies s[j] == 0 by {
                if j < i - 1 {
                    assert(g0 == 0);
                }
            }
        }
    }
}

/// A coefficient that the content `c` divides is `c` times its exact quotient, which is also
/// its quotient rounded toward zero.
proof fn lemma_content_quotient(a: isize, c: nat)
    requires
        c > 0,
        (abs(a as int) as nat) % c == 0,
    ensures
        crate::math::poly::trunc_div(a as int, c as int) == (a as int) / (c as int),
        ((a as int) / (c as int)) * c == a,
{
    let aa: int = abs(a as int) as int;
    vstd::arithmetic::div_mod::lemma_fundamental_div_mod(aa, c as int);
    let k: int = aa / (c as int);
    assert(aa == c * k);
    if a >= 0 {
        vstd::arithmetic::div_mod::lemma_div_multiples_vanish(k, c as int);
        assert(k * c == a) by (nonlinear_arith)
            requires
                aa == c * k,
                aa == a,
        ;
    } else {
        assert(a == c * (-k)) by (nonlinear_arith)
            requires
                aa == c * k,
                aa == -a,
        ;
        vstd::arithmetic::div_mod::lemma_div_multiples_vanish(-k, c as int);
        assert((-k) * c == a) by (nonlinear_arith)
            requires
                a == c * (-k),
        ;
    }
}

/// Past the first coefficient the fold fits in `isize`.
proof fn lemma_coeffs_gcd_bound(s: Seq<isize>, i: int)
    requires
        1 <= i <= s.len(),
        no_min(s),
    ensures
        coeffs_gcd_fold(s, i) <= isize::MAX,
    decreases i,
{
    let a = abs(s[i - 1] as int) as nat;
    if i == 1 {
        lemma_gcd_le(0, a);
        if a == 0 {
            assert(spec_gcd(0, 0) == 0);
        }
    } else {
        lemma_coeffs_gcd_bound(s, i - 1);
        lemma_gcd_le(coeffs_gcd_fold(s, i - 1), a);
        if coeffs_gcd_fold(s, i - 1) == 0 && a == 0 {
            assert(spec_gcd(0, 0) == 0);
        }
    }
}

/// Returns the gcd of a polynomial's term coefficients, folded as `coeffs_gcd` describes.
fn poly_coeffs_gcd(p: &Poly) -> (r: u64)
    requires
        no_min(p.vec@),
    ensures
        r == coeffs_gcd(p.vec@),
        r <= isize::MAX,
{
    let ghost s = p.vec@;
    let n = p.vec.len();
    let mut cont: u64 = 0;
    let mut i: usize = 0;
    while i < n
        invariant_except_break
            cont == coeffs_gcd_fold(s, i as int),
        invariant
            s == p.vec@,
            n == s.len(),
            no_min(s),
            i <= n,
            cont <= isize::MAX,
        ensures
            cont == coeffs_gcd_fold(s, n as int),
            cont <= isize::MAX,
        decreases n - i,
    {
        cont = gcd(cont, iabs(p.vec[i]) as u64);
        i = i + 1;
        proof {
            lemma_coeffs_gcd_bound(s, i as int);
        }
        if cont == 1 {
            proof {
                lemma_coeffs_gcd_one(s, i as int, n as int);
            }
            break;
        }
    }
    cont
}

/// Extracts the common constant factor of two polynomials. Returns (constant, f / constant,
/// g / constant), where the constant is the gcd of all their coefficients, or 1 when both
/// polynomials are zero.
fn poly_extract_common(f: Poly, g: Poly) -> (r: (isize, Poly, Poly))
    requires
        no_min(f.vec@),
        no_min(g.vec@),
    ensures
        r.0 == (if common_content(f.vec@, g.vec@) == 0 {
            1
        } else {
            common_content(f.vec@, g.vec@)
        }),
        r.1.vec@ == divided_by_content(f.vec@, common_content(f.vec@, g.vec@)),
        r.2.vec@ == divided_by_content(g.vec@, common_content(f.vec@, g.vec@)),
        r.0 >= 1,
        r.1.vec@.len() == f.vec@.len(),
        r.2.vec@.len() == g.vec@.len(),
        forall|i: int| 0 <= i < f.vec@.len() ==> #[trigger] r.1.vec@[i] * r.0 == f.vec@[i],
        forall|i: int| 0 <= i < g.vec@.len() ==> #[trigger] r.2.vec@[i] * r.0 == g.vec@[i],
{
    let ghost fs = f.vec@;
    let ghost gs = g.vec@;
    let fc = poly_coeffs_gcd(&f);
    let gc = poly_coeffs_gcd(&g);
    let c = gcd(fc, gc);
    proof {
        lemma_gcd_le(fc as nat, gc as nat);
        lemma_gcd_divides(fc as nat, gc as nat);
        lemma_coeffs_gcd_divides(fs, fs.len() as int);
        lemma_coeffs_gcd_divides(gs, gs.len() as int);
    }
    let gcd = c as isize;
    if gcd == 0 {
        (1, f, g)
    } else {
        let ghost cn = c as nat;
        assert forall|i: int| 0 <= i < fs.len() implies (abs(fs[i] as int) as nat) % cn == 0
            && crate::math::poly::trunc_div(fs[i] as int, cn as int) == (fs[i] as int) / (
            cn as int) && ((fs[i] as int) / (cn as int)) * cn == fs[i] by {
            if fc > 0 {
                assert((abs(fs[i] as int) as nat) % (fc as nat) == 0);
                lemma_mod_trans(abs(fs[i] as int) as nat, fc as nat, cn);
            } else {
                assert(fs[i] == 0);
                vstd::arithmetic::div_mod::lemma_small_mod(0, cn);
            }
            lemma_content_quotient(fs[i], cn);
        }
        assert forall|i: int| 0 <= i < gs.len() implies (abs(gs[i] as int) as nat) % cn == 0
            && crate::math::poly::trunc_div(gs[i] as int, cn as int) == (gs[i] as int) / (
            cn as int) && ((gs[i] as int) / (cn as int)) * cn == gs[i] by {
            if gc > 0 {
                assert((abs(gs[i] as int) as nat) % (gc as nat) == 0);
                lemma_mod_trans(abs(gs[i] as int) as nat, gc as nat, cn);
            } else {
                assert(gs[i] == 0);
                vstd::arithmetic::div_mod::lemma_small_mod(0, cn);
            }
            lemma_content_quotient(gs[i], cn);
        }
        let f2 = f.div_scalar(gcd).unwrap();
        let g2 = g.div_scalar(gcd).unwrap();
        assert(f2.vec@ =~= divided_by_content(fs, cn));
        assert(g2.vec@ =~= divided_by_content(gs, cn));
        (gcd, f2, g2)
    }
}

/// The constant polynomial 1.
fn poly_one() -> (r: Poly)
    ensures
        r.vec@ == seq![1isize],
{
    let mut v: Vec<isize> = Vec::new();
    v.push(1);
    assert(v@ =~= seq![1isize]);
    Poly::new(v)
}

/// Handles the trivial polynomial gcd cases, where one of the polynomials is zero: the gcd of
/// a polynomial and zero is that polynomial, with quotients 1 and 0.
fn trivial_gcd(f: &Poly, g: &Poly) -> (r: Option<(Poly, Poly, Poly)>)
    ensures
        all_zero(f.vec@) && all_zero(g.vec@) ==> (r matches Some((a, b, c)) && a.vec@.len() == 0
            && b.vec@.len() == 0 && c.vec@.len() == 0),
        !all_zero(f.vec@) && all_zero(g.vec@) ==> (r matches Some((a, b, c)) && a.vec@ == f.vec@
            && b.vec@ == seq![1isize] && c.vec@.len() == 0),
        all_zero(f.vec@) && !all_zero(g.vec@) ==> (r matches Some((a, b, c)) && a.vec@ == g.vec@
            && b.vec@.len() == 0 && c.vec@ == seq![1isize]),
        !all_zero(f.vec@) && !all_zero(g.vec@) ==> r is None,
{
    match (f.is_empty(), g.is_empty()) {
        (true, true) => Some((Poly::empty(), Poly::empty(), Poly::empty())),
        (false, true) => Some((f.copy(), poly_one(), Poly::empty())),
        (true, false) => Some((g.copy(), Poly::empty(), poly_one())),
        (false, false) => None,
    }
}

/// Error returned when the heuristic finds no gcd.
pub open spec fn heu_failed_msg() -> Seq<char> {
    "gcd_poly_zz_heu failed"@
}

/// The errors that a step of the heuristic can end with: the heuristic failing, or an error of
/// the polynomial division it relies on.
pub open spec fn heu_error(e: Seq<char>) -> bool {
    e == heu_failed_msg() || e == crate::math::poly::div_overflow_msg()
        || e == crate::math::poly::div_by_zero_msg()
}

/// `h` divides `f` and `g` with cofactors `a` and `b`: `f == h * a` and `g == h * b` at every
/// point.
pub open spec fn is_common_factorization(
    f: Seq<isize>,
    g: Seq<isize>,
    h: Seq<isize>,
    a: Seq<isize>,
    b: Seq<isize>,
) -> bool {
    forall|x: int|
        #[trigger] peval(f, x) == peval(h, x) * peval(a, x) && peval(g, x) == peval(h, x)
            * peval(b, x)
}

/// `d` divides `p` over the integers: `p == d * q` at every point for some integer polynomial
/// `q`.
pub open spec fn divides(d: Seq<isize>, p: Seq<isize>) -> bool {
    exists|q: Seq<isize>| #[trigger] is_factorization(p, d, q)
}

/// `p == d * q` at every point.
pub open spec fn is_factorization(p: Seq<isize>, d: Seq<isize>, q: Seq<isize>) -> bool {
    forall|x: int| #[trigger] peval(p, x) == peval(d, x) * peval(q, x)
}

/// A multiple of `b` in absolute value is a multiple of `b`.
proof fn lemma_abs_divides(a: int, b: int)
    requires
        b > 0,
        (abs(a) as nat) % (b as nat) == 0,
    ensures
        a % b == 0,
{
    let aa: int = abs(a) as int;
    vstd::arithmetic::div_mod::lemma_fundamental_div_mod(aa, b);
    let k: int = aa / b;
    assert(aa % b == 0);
    if a < 0 {
        assert(a == (-k) * b) by (nonlinear_arith)
            requires
                aa == b * k + 0,
                a < 0,
                aa == -a,
        ;
        vstd::arithmetic::div_mod::lemma_mod_multiples_basic(-k, b);
    } else {
        assert(a == k * b) by (nonlinear_arith)
            requires
                aa == b * k + 0,
                aa == a,
        ;
        vstd::arithmetic::div_mod::lemma_mod_multiples_basic(k, b);
    }
}

/// A division that leaves a zero remainder is an exact factorization.
proof fn lemma_exact_division(s: Seq<isize>, o: Seq<isize>, q: Seq<isize>, r: Seq<isize>)
    requires
        is_division(s, o, q, r),
        all_zero(r),
    ensures
        forall|x: int| #[trigger] peval(s, x) == peval(q, x) * peval(o, x),
{
    assert(r.len() == 0) by {
        if r.len() > 0 {
            assert(r[0] == 0);
        }
    }
    assert forall|x: int| #[trigger] peval(s, x) == peval(q, x) * peval(o, x) by {
        assert(peval(s, x) == peval(q, x) * peval(o, x) + peval(r, x));
    }
}

/// Whether `gcd_interpolate(h, x)` stays within `isize`.
fn interpolation_fits(h: isize, x: isize) -> (r: bool)
    requires
        x >= 2,
    ensures
        r == (-(isize::MAX - x) <= h <= isize::MAX - x),
{
    let m = isize::MAX - x;
    -m <= h && h <= m
}

/// One evaluation point of the heuristic gcd: evaluates `f` and `g` at `xi`, interpolates
/// candidate factors from the integer gcd of the values and from both cofactors, and keeps the
/// first candidate that divides both polynomials exactly. `Ok(None)` asks for another point.
/// Values that leave `isize` end the heuristic with a failure.
fn heu_step(f: &Poly, g: &Poly, xi: isize) -> (r: Result<Option<(Poly, Poly, Poly)>, &'static str>)
    requires
        xi >= 2,
        f.vec@.len() <= isize::MAX,
        g.vec@.len() <= isize::MAX,
        f.vec@.len() > 0 && f.vec@[0] != 0,
        g.vec@.len() > 0 && g.vec@[0] != 0,
    ensures
        r matches Ok(Some((h, a, b))) ==> is_common_factorization(
            f.vec@,
            g.vec@,
            h.vec@,
            a.vec@,
            b.vec@,
        ),
        r matches Err(e) ==> heu_error(e@),
        !horner_fits(f.vec@, xi as int) ==> r is Err,
        horner_fits(f.vec@, xi as int) && !horner_fits(g.vec@, xi as int) ==> r is Err,
        horner_fits(f.vec@, xi as int) && horner_fits(g.vec@, xi as int) && (peval(
            f.vec@,
            xi as int,
        ) == 0 || peval(g.vec@, xi as int) == 0) ==> r matches Ok(None),
        horner_fits(f.vec@, xi as int) && horner_fits(g.vec@, xi as int) && peval(f.vec@, xi as int)
            != 0 && peval(g.vec@, xi as int) != 0 && (peval(f.vec@, xi as int) == isize::MIN
            || peval(g.vec@, xi as int) == isize::MIN) ==> r is Err,
        horner_fits(f.vec@, xi as int) && horner_fits(g.vec@, xi as int) && peval(f.vec@, xi as int)
            != 0 && peval(g.vec@, xi as int) != 0 && peval(f.vec@, xi as int) != isize::MIN
            && peval(g.vec@, xi as int) != isize::MIN && !(-(isize::MAX - xi) <= spec_gcd(
            vstd::math::abs(peval(f.vec@, xi as int)) as nat,
            vstd::math::abs(peval(g.vec@, xi as int)) as nat,
        ) <= isize::MAX - xi) ==> r is Err,
{
    let f_xi = match f.try_eval(xi) {
        Some(v) => v,
        None => { return Err("gcd_poly_zz_heu failed"); },
    };
    let g_xi = match g.try_eval(xi) {
        Some(v) => v,
        None => { return Err("gcd_poly_zz_heu failed"); },
    };
    let ghost fs = f.vec@;
    let ghost gs = g.vec@;
    if f_xi != 0 && g_xi != 0 {
        if f_xi == isize::MIN || g_xi == isize::MIN {
            return Err("gcd_poly_zz_heu failed");
        }
        let fa = iabs(f_xi) as u64;
        let ga = iabs(g_xi) as u64;
        let heu_u = gcd(fa, ga);
        proof {
            lemma_gcd_divides(fa as nat, ga as nat);
            lemma_gcd_le(fa as nat, ga as nat);
            lemma_abs_divides(f_xi as int, heu_u as int);
            lemma_abs_divides(g_xi as int, heu_u as int);
        }
        let heu = heu_u as isize;
        let cff = exact_quotient(f_xi, heu);
        let cfg = exact_quotient(g_xi, heu);
        if !interpolation_fits(heu, xi) {
            return Err("gcd_poly_zz_heu failed");
        }
        let interp = gcd_interpolate(heu, xi);
        let ghost iv = interp.vec@;
        let heu_poly = interp.primitive();
        let ghost hp = heu_poly.vec@;
        assert(normalized(hp)) by {
            if hp.len() > 0 && !(all_zero(iv) || content(iv) == 1) {
                assert(hp[0] * content(iv) == iv[0]);
                if hp[0] == 0 {
                    assert(hp[0] * content(iv) == 0) by (nonlinear_arith)
                        requires
                            hp[0] == 0,
                    ;
                }
            }
        }
        let (cff2, rem) = match f.copy().div(heu_poly.copy()) {
            Ok(q) => q,
            Err(e) => { return Err(e); },
        };
        if rem.is_empty() {
            proof {
                lemma_exact_division(fs, hp, cff2.vec@, rem.vec@);
            }
            let (cfg2, rem2) = match g.copy().div(heu_poly.copy()) {
                Ok(q) => q,
                Err(e) => { return Err(e); },
            };
            if rem2.is_empty() {
                proof {
                    lemma_exact_division(gs, hp, cfg2.vec@, rem2.vec@);
                }
                return Ok(Some((heu_poly, cff2, cfg2)));
            }
        }
        if !interpolation_fits(cff, xi) {
            return Err("gcd_poly_zz_heu failed");
        }
        let cff_poly = gcd_interpolate(cff, xi);
        let (heu_poly, rem) = match f.copy().div(cff_poly.copy()) {
            Ok(q) => q,
            Err(e) => { return Err(e); },
        };
        if rem.is_empty() {
            proof {
                lemma_exact_division(fs, cff_poly.vec@, heu_poly.vec@, rem.vec@);
            }
            let (cfg2, rem2) = match g.copy().div(heu_poly.copy()) {
                Ok(q) => q,
                Err(e) => { return Err(e); },
            };
            if rem2.is_empty() {
                proof {
                    lemma_exact_division(gs, heu_poly.vec@, cfg2.vec@, rem2.vec@);
                }
                return Ok(Some((heu_poly, cff_poly, cfg2)));
            }
        }
        if !interpolation_fits(cfg, xi) {
            return Err("gcd_poly_zz_heu failed");
        }
        let cfg_poly = gcd_interpolate(cfg, xi);
        let (heu_poly, rem) = match g.copy().div(cfg_poly.copy()) {
            Ok(q) => q,
            Err(e) => { return Err(e); },
        };
        if rem.is_empty() {
            proof {
                lemma_exact_division(gs, cfg_poly.vec@, heu_poly.vec@, rem.vec@);
            }
            let (cff2, rem2) = match f.copy().div(heu_poly.copy()) {
                Ok(q) => q,
                Err(e) => { return Err(e); },
            };
            if rem2.is_empty() {
                proof {
                    lemma_exact_division(fs, heu_poly.vec@, cff2.vec@, rem2.vec@);
                }
                return Ok(Some((heu_poly, cff2, cfg_poly)));
            }
        }
    }
    Ok(None)
}

/// Calculates the gcd of two polynomials `f` and `g` over the integers with the GCDHEU
/// heuristic (Char, Geddes and Gonnet; Liao and Fateman).
///
/// If it succeeds, the result is `(gcd, f_quotient, g_quotient)`. When one polynomial is zero
/// the other is the gcd, with quotients 1 and 0. Otherwise leading zero coefficients are
/// dropped, the common content of the coefficients is divided out, up to six evaluation points are tried (starting from one
/// derived from the max norms, with integer square roots), and the first candidate that
/// divides both primitive parts is returned with the content multiplied back in; the heuristic
/// may fail.
pub fn gcd_poly_zz_heu(f: Poly, g: Poly) -> (res: Result<(Poly, Poly, Poly), &'static str>)
    requires
        f.vec@.len() <= isize::MAX,
        g.vec@.len() <= isize::MAX,
        no_min(f.vec@),
        no_min(g.vec@),
    ensures
        all_zero(f.vec@) && all_zero(g.vec@) ==> (res matches Ok((h, a, b)) && h.vec@.len() == 0
            && a.vec@.len() == 0 && b.vec@.len() == 0),
        !all_zero(f.vec@) && all_zero(g.vec@) ==> (res matches Ok((h, a, b)) && h.vec@
            == f.vec@ && a.vec@ == seq![1isize] && b.vec@.len() == 0),
        all_zero(f.vec@) && !all_zero(g.vec@) ==> (res matches Ok((h, a, b)) && h.vec@
            == g.vec@ && a.vec@.len() == 0 && b.vec@ == seq![1isize]),
        !all_zero(f.vec@) && !all_zero(g.vec@) ==> match res {
            Ok((h, a, b)) => is_common_factorization(f.vec@, g.vec@, h.vec@, a.vec@, b.vec@),
            Err(e) => heu_error(e@),
        },
        all_zero(f.vec@) || all_zero(g.vec@) ==> (res matches Ok((h, a, b)) && forall|
            d: Seq<isize>,
        | divides(d, f.vec@) && divides(d, g.vec@) ==> #[trigger] divides(d, h.vec@)),
{
    if let Some(res) = trivial_gcd(&f, &g) {
        proof {
            if all_zero(f.vec@) && all_zero(g.vec@) {
                assert forall|d: Seq<isize>| divides(d, f.vec@) && divides(d, g.vec@) implies #[trigger] divides(
                    d,
                    res.0.vec@,
                ) by {
                    let q = Seq::<isize>::empty();
                    assert forall|x: int| #[trigger] peval(res.0.vec@, x) == peval(d, x) * peval(q, x) by {
                        assert(peval(res.0.vec@, x) == 0);
                        assert(peval(q, x) == 0);
                    }
                    assert(is_factorization(res.0.vec@, d, q));
                }
            }
        }
        return Ok(res);
    }
    let ghost f0 = f.vec@;
    let ghost g0 = g.vec@;
    // Leading zero coefficients change neither polynomial.
    let f1 = f.copy().truncate_zeros();
    let g1 = g.copy().truncate_zeros();
    let ghost fs = f1.vec@;
    let ghost gs = g1.vec@;
    proof {
        lemma_strip_props(f0);
        lemma_strip_props(g0);
        assert(fs.len() > 0) by {
            if fs.len() == 0 {
                assert(all_zero(f0));
            }
        }
        assert(gs.len() > 0) by {
            if gs.len() == 0 {
                assert(all_zero(g0));
            }
        }
        assert(!all_zero(fs) && !all_zero(gs));
        assert forall|x: int| #[trigger] peval(f0, x) == peval(fs, x) by {
            lemma_peval_strip(f0, x);
        }
        assert forall|x: int| #[trigger] peval(g0, x) == peval(gs, x) by {
            lemma_peval_strip(g0, x);
        }
    }

    let (gcd_val, fp, gp) = poly_extract_common(f1, g1);
    let ghost fps = fp.vec@;
    let ghost gps = gp.vec@;
    proof {
        assert(fps[0] != 0) by {
            if fps[0] == 0 {
                assert(fps[0] * gcd_val == 0);
            }
        }
        assert(gps[0] != 0) by {
            if gps[0] == 0 {
                assert(gps[0] * gcd_val == 0);
            }
        }
        assert forall|i: int| 0 <= i < fps.len() implies fps[i] != isize::MIN by {
            assert(fps[i] * gcd_val == fs[i]);
            if fps[i] == isize::MIN {
                assert(fps[i] * gcd_val <= isize::MIN) by (nonlinear_arith)
                    requires
                        fps[i] == isize::MIN,
                        gcd_val >= 1,
                ;
            }
        }
        assert forall|i: int| 0 <= i < gps.len() implies gps[i] != isize::MIN by {
            assert(gps[i] * gcd_val == gs[i]);
            if gps[i] == isize::MIN {
                assert(gps[i] * gcd_val <= isize::MIN) by (nonlinear_arith)
                    requires
                        gps[i] == isize::MIN,
                        gcd_val >= 1,
                ;
            }
        }
        assert forall|x: int| #[trigger] peval(fs, x) == peval(fps, x) * gcd_val by {
            lemma_peval_scale(fps, fs, gcd_val as int, x);
        }
        assert forall|x: int| #[trigger] peval(gs, x) == peval(gps, x) * gcd_val by {
            lemma_peval_scale(gps, gs, gcd_val as int, x);
        }
        assert forall|x: int| #[trigger] peval(f0, x) == peval(fps, x) * gcd_val by {
            assert(peval(f0, x) == peval(fs, x));
        }
        assert forall|x: int| #[trigger] peval(g0, x) == peval(gps, x) * gcd_val by {
            assert(peval(g0, x) == peval(gs, x));
        }
    }
    let f_norm = fp.max_norm();
    let g_norm = gp.max_norm();

    let min_norm = if f_norm < g_norm {
        f_norm
    } else {
        g_norm
    };
    let norm_char: usize = match min_norm.checked_mul(2) {
        Some(v) => match v.checked_add(29) {
            Some(w) => w,
            None => { return Err("gcd_poly_zz_heu failed"); },
        },
        None => { return Err("gcd_poly_zz_heu failed"); },
    };
    let root = isqrt(norm_char as u64);
    let scaled: u64 = 10_000 * root / 101;
    let first: u64 = if (norm_char as u64) < scaled {
        norm_char as u64
    } else {
        scaled
    };
    let lf = iabs(fp.lc()) as usize;
    let lg = iabs(gp.lc()) as usize;
    let fq = f_norm / lf;
    let gq = g_norm / lg + 2;
    let second: u64 = 2 * (if fq < gq {
        fq
    } else {
        gq
    }) as u64;
    let start: u64 = if first > second {
        first
    } else {
        second
    };
    if start > isize::MAX as u64 {
        return Err("gcd_poly_zz_heu failed");
    }
    let mut xi: isize = start as isize;

    let mut iter: u8 = 0;
    while iter < 6
        invariant
            xi >= 2,
            fp.vec@ == fps,
            gp.vec@ == gps,
            gcd_val >= 1,
            fps.len() <= isize::MAX,
            gps.len() <= isize::MAX,
            fps.len() > 0 && fps[0] != 0,
            gps.len() > 0 && gps[0] != 0,
            f.vec@ == f0,
            g.vec@ == g0,
            !all_zero(f0) && !all_zero(g0),
            forall|x: int| #[trigger] peval(f0, x) == peval(fps, x) * gcd_val,
            forall|x: int| #[trigger] peval(g0, x) == peval(gps, x) * gcd_val,
        decreases 6 - iter,
    {
        match heu_step(&fp, &gp, xi) {
            Err(e) => { return Err(e); },
            Ok(Some((heu_poly, cff, cfg))) => {
                let ghost hp = heu_poly.vec@;
                if !check_scalable(&heu_poly.vec, gcd_val) {
                    return Err("gcd_poly_zz_heu failed");
                }
                let h = heu_poly.mul_scalar(gcd_val);
                proof {
                    assert forall|x: int| #[trigger] peval(f0, x) == peval(h.vec@, x) * peval(
                        cff.vec@,
                        x,
                    ) && peval(g0, x) == peval(h.vec@, x) * peval(cfg.vec@, x) by {
                        lemma_peval_scale(hp, h.vec@, gcd_val as int, x);
                        assert(peval(fps, x) == peval(hp, x) * peval(cff.vec@, x));
                        assert(peval(gps, x) == peval(hp, x) * peval(cfg.vec@, x));
                        let hv = peval(hp, x);
                        let c = gcd_val as int;
                        assert(peval(f0, x) == peval(fps, x) * c);
                        assert((hv * peval(cff.vec@, x)) * c == (hv * c) * peval(cff.vec@, x))
                            by (nonlinear_arith);
                        assert((hv * peval(cfg.vec@, x)) * c == (hv * c) * peval(cfg.vec@, x))
                            by (nonlinear_arith);
                    }
                }
                return Ok((h, cff, cfg));
            },
            Ok(None) => {},
        }
        let s1 = isqrt(xi as u64);
        let s2 = isqrt(s1);
        assert(s2 < 0x1_0000) by (nonlinear_arith)
            requires
                s2 * s2 <= s1,
                s1 < 0x1_0000_0000,
        ;
        let r = s2 as isize;
        xi = match 73794isize.checked_mul(xi) {
            Some(v) => match v.checked_mul(r) {
                Some(w) => {
                    assert(w >= 2) by (nonlinear_arith)
                        requires
                            v == 73794 * xi,
                            w == v * r,
                            xi >= 2,
                            r >= 1,
                    ;
                    w
                },
                None => { return Err("gcd_poly_zz_heu failed"); },
            },
            None => { return Err("gcd_poly_zz_heu failed"); },
        };
        iter = iter + 1;
    }
    Err("gcd_poly_zz_heu failed")
}

} // verus!
