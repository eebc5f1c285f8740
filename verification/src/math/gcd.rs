use vstd::arithmetic::div_mod::{
    lemma_fundamental_div_mod, lemma_mod_multiples_basic, lemma_mod_self_0, lemma_add_mod_noop,
    lemma_sub_mod_noop, lemma_mul_mod_noop_right, lemma_small_mod,
};
use vstd::arithmetic::mul::lemma_mul_is_commutative;
use vstd::arithmetic::power2::{lemma2_to64, lemma_pow2_adds, lemma_pow2_pos, lemma_pow2_strictly_increases, pow2};
use vstd::prelude::*;

verus! {

/// The greatest common divisor, defined by the Euclidean recursion.
pub open spec fn spec_gcd(a: nat, b: nat) -> nat
    decreases b,
{
    if b == 0 {
        a
    } else {
        spec_gcd(b, a % b)
    }
}

/// If `d` divides `x` and `y`, then it divides `x + k * y`.
proof fn lemma_divides_lin_comb(x: nat, y: nat, k: nat, d: nat)
    requires
        d > 0,
        x % d == 0,
        y % d == 0,
    ensures
        (x + k * y) % d == 0,
{
    lemma_mul_mod_noop_right(k as int, y as int, d as int);
    lemma_mod_self_0(d as int);
    lemma_small_mod(0, d);
    lemma_add_mod_noop(x as int, (k * y) as int, d as int);
}

/// The gcd divides both of its arguments (the gcd of two zeros is zero).
pub proof fn lemma_gcd_divides(a: nat, b: nat)
    ensures
        spec_gcd(a, b) == 0 <==> (a == 0 && b == 0),
        spec_gcd(a, b) > 0 ==> a % spec_gcd(a, b) == 0 && b % spec_gcd(a, b) == 0,
    decreases b,
{
    if b == 0 {
        if a > 0 {
            lemma_mod_self_0(a as int);
            lemma_small_mod(0, a);
        }
    } else {
        let r = a % b;
        lemma_gcd_divides(b, r);
        let g = spec_gcd(a, b);
        lemma_fundamental_div_mod(a as int, b as int);
        lemma_mul_is_commutative((a / b) as int, b as int);
        assert(a == r + (a / b) * b);
        lemma_divides_lin_comb(r, b, a / b, g);
    }
}

/// Every common divisor of `a` and `b` divides their gcd.
pub proof fn lemma_gcd_greatest(a: nat, b: nat, d: nat)
    requires
        d > 0,
        a % d == 0,
        b % d == 0,
    ensures
        spec_gcd(a, b) % d == 0,
    decreases b,
{
    if b > 0 {
        let q = a / b;
        let r = a % b;
        lemma_fundamental_div_mod(a as int, b as int);
        lemma_mul_is_commutative(q as int, b as int);
        assert((q * b) % d == 0) by {
            lemma_mul_mod_noop_right(q as int, b as int, d as int);
            lemma_small_mod(0, d);
        }
        assert(r % d == 0) by {
            lemma_sub_mod_noop(a as int, (q * b) as int, d as int);
            lemma_small_mod(0, d);
        }
        lemma_gcd_greatest(b, r, d);
    }
}

/// The gcd is no larger than any nonzero argument, nor than the larger of the two.
pub proof fn lemma_gcd_le(a: nat, b: nat)
    ensures
        spec_gcd(a, b) <= if a >= b { a } else { b },
        a > 0 ==> spec_gcd(a, b) <= a,
        b > 0 ==> spec_gcd(a, b) <= b,
{
    lemma_gcd_divides(a, b);
    let g = spec_gcd(a, b);
    if a > 0 {
        assert(g > 0);
        vstd::arithmetic::div_mod::lemma_fundamental_div_mod(a as int, g as int);
        assert(g <= a) by (nonlinear_arith)
            requires
                a == g * (a / g),
                a > 0,
                g > 0,
        ;
    }
    if b > 0 {
        assert(g > 0);
        vstd::arithmetic::div_mod::lemma_fundamental_div_mod(b as int, g as int);
        assert(g <= b) by (nonlinear_arith)
            requires
                b == g * (b / g),
                b > 0,
                g > 0,
        ;
    }
}

/// The gcd of 1 and anything is 1.
pub proof fn lemma_gcd_one(b: nat)
    ensures
        spec_gcd(1, b) == 1,
{
    if b > 1 {
        lemma_small_mod(1, b);
        assert(1nat % b == 1);
        assert(spec_gcd(1, b) == spec_gcd(b, 1));
        assert(b % 1 == 0);
        assert(spec_gcd(b, 1) == spec_gcd(1, 0));
    } else if b == 1 {
        assert(1nat % 1nat == 0);
        assert(spec_gcd(1, 1) == spec_gcd(1, 0));
    }
}

/// Positive numbers that divide each other are equal.
proof fn lemma_mutual_div(x: nat, y: nat)
    requires
        x > 0,
        y > 0,
        x % y == 0,
        y % x == 0,
    ensures
        x == y,
{
    lemma_fundamental_div_mod(x as int, y as int);
    lemma_fundamental_div_mod(y as int, x as int);
    assert(x == y) by (nonlinear_arith)
        requires
            x > 0,
            y > 0,
            x == y * (x / y),
            y == x * (y / x),
    {
        assert(x / y >= 1);
        assert(y / x >= 1);
    }
}

/// `d` divides `n` when `n` is `d` times some `q`.
proof fn lemma_div_of_mul(d: nat, q: nat, n: nat)
    requires
        d > 0,
        n == d * q,
    ensures
        n % d == 0,
{
    lemma_mul_is_commutative(d as int, q as int);
    lemma_mod_multiples_basic(q as int, d as int);
}

/// The gcd is symmetric.
pub proof fn lemma_gcd_sym(a: nat, b: nat)
    ensures
        spec_gcd(a, b) == spec_gcd(b, a),
{
    lemma_gcd_divides(a, b);
    lemma_gcd_divides(b, a);
    if a > 0 || b > 0 {
        lemma_gcd_greatest(a, b, spec_gcd(b, a));
        lemma_gcd_greatest(b, a, spec_gcd(a, b));
        lemma_mutual_div(spec_gcd(a, b), spec_gcd(b, a));
    }
}

/// Subtracting the smaller argument from the larger keeps the gcd.
pub proof fn lemma_gcd_sub(a: nat, b: nat)
    requires
        a > 0,
        a <= b,
    ensures
        spec_gcd(a, b) == spec_gcd(a, (b - a) as nat),
{
    let c = (b - a) as nat;
    let g1 = spec_gcd(a, b);
    let g2 = spec_gcd(a, c);
    lemma_gcd_divides(a, b);
    lemma_gcd_divides(a, c);
    assert(c % g1 == 0) by {
        lemma_sub_mod_noop(b as int, a as int, g1 as int);
        lemma_small_mod(0, g1);
    }
    lemma_gcd_greatest(a, c, g1);
    assert(b % g2 == 0) by {
        lemma_add_mod_noop(c as int, a as int, g2 as int);
        lemma_small_mod(0, g2);
    }
    lemma_gcd_greatest(a, b, g2);
    lemma_mutual_div(g1, g2);
}

/// An odd divisor of `2 * c` divides `c`.
proof fn lemma_odd_divides_half(g: nat, c: nat)
    requires
        g % 2 == 1,
        (2 * c) % g == 0,
    ensures
        c % g == 0,
{
    lemma_fundamental_div_mod((2 * c) as int, g as int);
    let q = (2 * c) / g;
    assert(q % 2 == 0) by (nonlinear_arith)
        requires
            g % 2 == 1,
            2 * c == g * q,
            q >= 0,
    {
        let r = q % 2;
        let h = q / 2;
        assert(q == 2 * h + r);
        let gh = g / 2;
        assert(g == 2 * gh + 1);
        assert(g * q == 2 * (g * h) + 2 * gh * r + r);
    }
    lemma_fundamental_div_mod(q as int, 2);
    let h = (q / 2) as nat;
    assert(c == g * h) by (nonlinear_arith)
        requires
            2 * c == g * q,
            q == 2 * h,
    ;
    lemma_div_of_mul(g, h, c);
}

/// A divisor of an odd number is odd.
proof fn lemma_divisor_of_odd(g: nat, a: nat)
    requires
        g > 0,
        a % 2 == 1,
        a % g == 0,
    ensures
        g % 2 == 1,
{
    lemma_fundamental_div_mod(a as int, g as int);
    let q = a / g;
    assert(g % 2 == 1) by (nonlinear_arith)
        requires
            a == g * q,
            a % 2 == 1,
            g > 0,
    {
        if g % 2 == 0 {
            let h = g / 2;
            assert(g == 2 * h);
            assert(a == 2 * (h * q));
        }
    }
}

/// With `a` odd, doubling `c` keeps the gcd.
proof fn lemma_gcd_odd_double(a: nat, c: nat)
    requires
        a % 2 == 1,
    ensures
        spec_gcd(a, 2 * c) == spec_gcd(a, c),
{
    let g1 = spec_gcd(a, 2 * c);
    let g2 = spec_gcd(a, c);
    lemma_gcd_divides(a, 2 * c);
    lemma_gcd_divides(a, c);
    lemma_divisor_of_odd(g1, a);
    lemma_odd_divides_half(g1, c);
    lemma_gcd_greatest(a, c, g1);
    assert((2 * c) % g2 == 0) by {
        lemma_mul_mod_noop_right(2, c as int, g2 as int);
        lemma_small_mod(0, g2);
    }
    lemma_gcd_greatest(a, 2 * c, g2);
    lemma_mutual_div(g1, g2);
}

/// With `a` odd, multiplying `c` by a power of two keeps the gcd.
proof fn lemma_gcd_odd_pow2(a: nat, c: nat, k: nat)
    requires
        a % 2 == 1,
    ensures
        spec_gcd(a, c * pow2(k)) == spec_gcd(a, c),
    decreases k,
{
    if k == 0 {
        lemma2_to64();
        assert(c * pow2(0) == c);
    } else {
        lemma_gcd_odd_pow2(a, c, (k - 1) as nat);
        lemma_pow2_adds((k - 1) as nat, 1);
        lemma2_to64();
        assert(c * pow2(k) == 2 * (c * pow2((k - 1) as nat))) by (nonlinear_arith)
            requires
                pow2(k) == pow2((k - 1) as nat) * 2,
        ;
        lemma_gcd_odd_double(a, c * pow2((k - 1) as nat));
    }
}

/// Scaling both arguments scales the gcd.
proof fn lemma_gcd_scale(a: nat, b: nat, k: nat)
    requires
        a > 0,
        k > 0,
    ensures
        spec_gcd(k * a, k * b) == k * spec_gcd(a, b),
{
    let g = spec_gcd(a, b);
    let big = spec_gcd(k * a, k * b);
    lemma_gcd_divides(a, b);
    assert(k * a > 0) by (nonlinear_arith)
        requires
            a > 0,
            k > 0,
    ;
    lemma_gcd_divides(k * a, k * b);
    assert(g > 0);
    assert(k * g > 0) by (nonlinear_arith)
        requires
            g > 0,
            k > 0,
    ;
    // k * g divides both scaled arguments
    lemma_fundamental_div_mod(a as int, g as int);
    lemma_fundamental_div_mod(b as int, g as int);
    let qa = a / g;
    let qb = b / g;
    assert(k * a == (k * g) * qa) by (nonlinear_arith)
        requires
            a == g * qa,
    ;
    assert(k * b == (k * g) * qb) by (nonlinear_arith)
        requires
            b == g * qb,
    ;
    lemma_div_of_mul(k * g, qa as nat, k * a);
    lemma_div_of_mul(k * g, qb as nat, k * b);
    lemma_gcd_greatest(k * a, k * b, k * g);
    // big = k * g * t, and g * t divides a and b
    lemma_fundamental_div_mod(big as int, (k * g) as int);
    let t = big / (k * g);
    assert(big == (k * g) * t);
    lemma_fundamental_div_mod((k * a) as int, big as int);
    lemma_fundamental_div_mod((k * b) as int, big as int);
    let ra = (k * a) / big;
    let rb = (k * b) / big;
    assert(t > 0) by (nonlinear_arith)
        requires
            big > 0,
            big == (k * g) * t,
            t >= 0,
    ;
    assert(a == (g * t) * ra) by (nonlinear_arith)
        requires
            k * a == big * ra,
            big == (k * g) * t,
            k > 0,
    ;
    assert(b == (g * t) * rb) by (nonlinear_arith)
        requires
            k * b == big * rb,
            big == (k * g) * t,
            k > 0,
    ;
    assert(g * t > 0) by (nonlinear_arith)
        requires
            g > 0,
            t > 0,
    ;
    lemma_div_of_mul(g * t, ra as nat, a);
    lemma_div_of_mul(g * t, rb as nat, b);
    lemma_gcd_greatest(a, b, g * t);
    lemma_gcd_le(g * t, 0);
    lemma_fundamental_div_mod(g as int, (g * t) as int);
    assert(t == 1) by (nonlinear_arith)
        requires
            g > 0,
            t > 0,
            g == (g * t) * (g / (g * t)),
    {
        assert(g / (g * t) >= 1);
    }
    assert(big == k * g) by (nonlinear_arith)
        requires
            big == (k * g) * t,
            t == 1,
    ;
}

/// Divides out the factors of two of `x > 0`: the odd part of `x` and how many factors of two
/// it had.
fn strip_twos(x: u64) -> (r: (u64, u32))
    requires
        x > 0,
    ensures
        r.0 % 2 == 1,
        r.0 <= x,
        r.1 < 64,
        x == r.0 * pow2(r.1 as nat),
{
    let mut y = x;
    let mut k: u32 = 0;
    proof {
        lemma2_to64();
    }
    while y % 2 == 0
        invariant
            0 < y <= x,
            k < 64,
            x == y * pow2(k as nat),
        decreases y,
    {
        proof {
            lemma_pow2_adds(k as nat, 1);
            lemma2_to64();
            assert(x == (y / 2) * pow2((k + 1) as nat)) by (nonlinear_arith)
                requires
                    x == y * pow2(k as nat),
                    y % 2 == 0,
                    pow2((k + 1) as nat) == pow2(k as nat) * 2,
            ;
            lemma_pow2_pos(k as nat);
            if k + 1 >= 64 {
                lemma_pow2_strictly_increases(63, (k + 1) as nat);
                assert(false) by (nonlinear_arith)
                    requires
                        x == (y / 2) * pow2((k + 1) as nat),
                        y / 2 >= 1,
                        pow2((k + 1) as nat) >= 0x10000000000000000,
                        x <= 0xffff_ffff_ffff_ffff,
                ;
            }
        }
        y = y / 2;
        k = k + 1;
    }
    (y, k)
}

/// The gcd of `u` and `v` by the binary method (Stein's algorithm), for all arguments: the gcd
/// of a number and zero is that number.
pub fn binary_gcd(u: u64, v: u64) -> (r: u64)
    ensures
        r == spec_gcd(u as nat, v as nat),
{
    if u == 0 {
        proof {
            lemma_gcd_sym(0, v as nat);
        }
        return v;
    }
    if v == 0 {
        return u;
    }
    let ghost (u0, v0) = (u as nat, v as nat);
    let (u1, tu) = strip_twos(u);
    let (v1, tv) = strip_twos(v);
    let shift_back: u32 = if tu < tv {
        tu
    } else {
        tv
    };
    let mut u = u1;
    let mut v = v1;
    let ghost m = shift_back as nat;
    proof {
        // gcd(u0, v0) == 2^m * gcd(u, v), with u and v odd
        let a = (tu - m) as nat;
        let b = (tv - m) as nat;
        lemma_pow2_adds(a, m);
        lemma_pow2_adds(b, m);
        lemma_pow2_pos(m);
        lemma_pow2_pos(a);
        lemma_pow2_pos(b);
        let ua = (u as nat) * pow2(a);
        let vb = (v as nat) * pow2(b);
        assert(u0 == pow2(m) * ua) by (nonlinear_arith)
            requires
                u0 == u * pow2(tu as nat),
                pow2(tu as nat) == pow2(a) * pow2(m),
                ua == u * pow2(a),
        ;
        assert(v0 == pow2(m) * vb) by (nonlinear_arith)
            requires
                v0 == v * pow2(tv as nat),
                pow2(tv as nat) == pow2(b) * pow2(m),
                vb == v * pow2(b),
        ;
        assert(ua > 0) by (nonlinear_arith)
            requires
                u0 == pow2(m) * ua,
                u0 > 0,
        ;
        lemma_gcd_scale(ua, vb, pow2(m));
        if tu <= tv {
            assert(a == 0);
            lemma2_to64();
            lemma_gcd_odd_pow2(u as nat, v as nat, b);
        } else {
            assert(b == 0);
            lemma2_to64();
            lemma_gcd_sym(ua, v as nat);
            lemma_gcd_odd_pow2(v as nat, u as nat, a);
            lemma_gcd_sym(v as nat, u as nat);
        }
        assert(spec_gcd(u0, v0) == pow2(m) * spec_gcd(u as nat, v as nat));
    }
    if u > v {
        let t = u;
        u = v;
        v = t;
        proof {
            lemma_gcd_sym(u as nat, v as nat);
        }
    }
    proof {
        lemma_gcd_sub(u as nat, v as nat);
    }
    v = v - u;
    while v != 0
        invariant
            u > 0,
            u % 2 == 1,
            spec_gcd(u0, v0) == pow2(m) * spec_gcd(u as nat, v as nat),
            u0 > 0,
            v0 > 0,
            m <= 64,
        decreases u + v,
    {
        let (odd, t) = strip_twos(v);
        proof {
            lemma_gcd_odd_pow2(u as nat, odd as nat, t as nat);
        }
        v = odd;
        if u > v {
            let w = u;
            u = v;
            v = w;
            proof {
                lemma_gcd_sym(u as nat, v as nat);
            }
        }
        proof {
            lemma_gcd_sub(u as nat, v as nat);
        }
        v = v - u;
    }
    proof {
        assert(spec_gcd(u as nat, 0) == u);
        lemma_gcd_le(u0, v0);
        lemma_pow2_pos(m);
        assert(u * pow2(m) <= u64::MAX) by (nonlinear_arith)
            requires
                spec_gcd(u0, v0) == pow2(m) * u,
                spec_gcd(u0, v0) <= u0,
                u0 <= u64::MAX,
        ;
        vstd::bits::lemma_u64_shl_is_mul(u, shift_back as u64);
    }
    u << (shift_back as u64)
}

/// Dividing two numbers by their gcd leaves coprime parts.
pub proof fn lemma_gcd_reduced(a: nat, b: nat)
    requires
        b > 0,
    ensures
        spec_gcd(a, b) > 0,
        a % spec_gcd(a, b) == 0,
        b % spec_gcd(a, b) == 0,
        spec_gcd(a / spec_gcd(a, b), b / spec_gcd(a, b)) == 1,
{
    let g = spec_gcd(a, b);
    lemma_gcd_divides(a, b);
    lemma_fundamental_div_mod(a as int, g as int);
    lemma_fundamental_div_mod(b as int, g as int);
    let a2 = a / g;
    let b2 = b / g;
    assert(b2 > 0) by (nonlinear_arith)
        requires
            b == g * b2,
            b > 0,
            g > 0,
    ;
    lemma_gcd_scale(b2, a2, g);
    lemma_gcd_sym(a, b);
    lemma_gcd_sym(b2, a2);
    assert(g * b2 == b && g * a2 == a);
    assert(spec_gcd(b2, a2) == 1) by (nonlinear_arith)
        requires
            g == g * spec_gcd(b2, a2),
            g > 0,
    ;
}

/// The Euclidean gcd of two 128-bit numbers.
pub fn gcd_u128(u: u128, v: u128) -> (r: u128)
    ensures
        r == spec_gcd(u as nat, v as nat),
{
    let ghost (u0, v0) = (u, v);
    let mut u = u;
    let mut v = v;
    while v != 0
        invariant
            spec_gcd(u as nat, v as nat) == spec_gcd(u0 as nat, v0 as nat),
        decreases v,
    {
        let t = v;
        v = u % v;
        u = t;
    }
    u
}

/// The Euclidean gcd of `u` and `v`.
/// Implemented for all (u, v) in N x N.
pub fn euclidean_gcd(u: u64, v: u64) -> (r: u64)
    ensures
        r == spec_gcd(u as nat, v as nat),
{
    let ghost (u0, v0) = (u, v);
    let mut u = u;
    let mut v = v;
    while v != 0
        invariant
            spec_gcd(u as nat, v as nat) == spec_gcd(u0 as nat, v0 as nat),
        decreases v,
    {
        let t = v;
        v = u % v;
        u = t;
    }
    u
}

/// Calculates the gcd of `u` and `v` (with the Euclidean algorithm as its implementation).
pub fn gcd(u: u64, v: u64) -> (r: u64)
    ensures
        r == spec_gcd(u as nat, v as nat),
{
    euclidean_gcd(u, v)
}

} // verus!
