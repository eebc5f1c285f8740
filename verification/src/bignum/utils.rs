//! Digit-vector helpers for [`Bignum`](crate::bignum::Bignum) arithmetic.
use crate::bignum::Bignum;
use vstd::prelude::*;

verus! {

/// `s` with its trailing zero entries removed.
pub open spec fn strip_trailing(s: Seq<u8>) -> Seq<u8>
    decreases s.len(),
{
    if s.len() > 0 && s.last() == 0 {
        strip_trailing(s.drop_last())
    } else {
        s
    }
}

/// `n` zero digits.
pub open spec fn zero_digits(n: nat) -> Seq<u8> {
    Seq::new(n, |i: int| 0u8)
}

/// Stripping trailing zeros leaves a prefix, followed only by zeros in `s`.
pub proof fn lemma_strip_trailing(s: Seq<u8>)
    ensures
        strip_trailing(s).len() <= s.len(),
        s == strip_trailing(s) + zero_digits((s.len() - strip_trailing(s).len()) as nat),
        strip_trailing(s).len() == 0 || strip_trailing(s).last() != 0,
    decreases s.len(),
{
    if s.len() > 0 && s.last() == 0 {
        let t = s.drop_last();
        lemma_strip_trailing(t);
        let k = strip_trailing(t).len();
        assert(zero_digits((s.len() - k) as nat) =~= zero_digits((t.len() - k) as nat).push(0));
        assert(s =~= t.push(0));
        assert(s =~= strip_trailing(t) + zero_digits((s.len() - k) as nat));
    }
}

/// Removes trailing zero digits from `v` (high digits of an integer part, low digits of a
/// fractional part).
pub fn truncate_zeros(v: Vec<u8>) -> (r: Vec<u8>)
    ensures
        r@ == strip_trailing(v@),
{
    let mut v = v;
    let n = v.len();
    let mut count: usize = 0;
    assert(v@.take(n as int) =~= v@);
    while count < n
        invariant
            n == v@.len(),
            count <= n,
            strip_trailing(v@) == strip_trailing(v@.take(n - count)),
        ensures
            count <= n,
            strip_trailing(v@) == strip_trailing(v@.take(n - count)),
            count < n ==> v@[n - 1 - count] != 0,
        decreases n - count,
    {
        let ghost t = v@.take(n - count);
        if v[n - 1 - count] == 0 {
            assert(t.drop_last() =~= v@.take(n - count - 1));
            count += 1;
        } else {
            break;
        }
    }
    let ghost keep = v@.take(n - count);
    proof {
        if count < n {
            assert(keep.last() != 0);
        }
        assert(strip_trailing(keep) == keep);
    }
    v.truncate(n - count);
    assert(v@ =~= keep);
    v
}

/// Pads the shorter of two digit vectors with trailing zeros so both have the same length.
pub fn normalize_vecs(v1: Vec<u8>, v2: Vec<u8>) -> (r: (Vec<u8>, Vec<u8>))
    ensures
        r.0@.len() == r.1@.len(),
        r.0@.len() == if v1@.len() >= v2@.len() { v1@.len() } else { v2@.len() },
        r.0@ == v1@ + zero_digits((r.0@.len() - v1@.len()) as nat),
        r.1@ == v2@ + zero_digits((r.1@.len() - v2@.len()) as nat),
{
    if v1.len() > v2.len() {
        let n = v1.len();
        let mut res = v2;
        let ghost orig = res@;
        while res.len() < n
            invariant
                res@.len() <= n,
                res@ == orig + zero_digits((res@.len() - orig.len()) as nat),
                orig.len() <= res@.len(),
            decreases n - res@.len(),
        {
            res.push(0);
            assert(res@ =~= orig + zero_digits((res@.len() - orig.len()) as nat));
        }
        assert(v1@ =~= v1@ + zero_digits(0));
        (v1, res)
    } else if v1.len() < v2.len() {
        let n = v2.len();
        let mut res = v1;
        let ghost orig = res@;
        while res.len() < n
            invariant
                res@.len() <= n,
                res@ == orig + zero_digits((res@.len() - orig.len()) as nat),
                orig.len() <= res@.len(),
            decreases n - res@.len(),
        {
            res.push(0);
            assert(res@ =~= orig + zero_digits((res@.len() - orig.len()) as nat));
        }
        assert(v2@ =~= v2@ + zero_digits(0));
        (res, v2)
    } else {
        assert(v1@ =~= v1@ + zero_digits(0));
        assert(v2@ =~= v2@ + zero_digits(0));
        (v1, v2)
    }
}

/// A copy of the digit vector `v`.
pub fn copy_digits(v: &Vec<u8>) -> (r: Vec<u8>)
    ensures
        r@ == v@,
{
    let mut out: Vec<u8> = Vec::new();
    for i in 0..v.len()
        invariant
            out@ == v@.take(i as int),
    {
        out.push(v[i]);
        assert(out@ =~= v@.take(i + 1));
    }
    assert(v@.take(v@.len() as int) =~= v@);
    out
}

/// The absolute value of `rhs`: the same digits, not negative.
pub fn abs(rhs: &Bignum) -> (r: Bignum)
    ensures
        !r.is_neg,
        r.int@ == rhs.int@,
        r.dec@ == rhs.dec@,
{
    Bignum { is_neg: false, dec: copy_digits(&rhs.dec), int: copy_digits(&rhs.int) }
}

/// `n` is a power of two.
pub open spec fn is_pow2(n: nat) -> bool
    decreases n,
{
    if n == 1 {
        true
    } else if n == 0 || n % 2 == 1 {
        false
    } else {
        is_pow2(n / 2)
    }
}

proof fn lemma_pow2_bits(n: usize)
    requires
        n > 0,
    ensures
        (n & ((n - 1) as usize) == 0) == is_pow2(n as nat),
    decreases n,
{
    if n == 1 {
        assert(1usize & ((1usize - 1) as usize) == 0) by (bit_vector);
    } else if n % 2 == 1 {
        assert(n % 2 == 1 && n > 1 ==> n & ((n - 1) as usize) != 0) by (bit_vector);
    } else {
        let h = n / 2;
        lemma_pow2_bits(h);
        assert(n % 2 == 0 && n > 0 && h == n / 2 ==> ((n & ((n - 1) as usize) == 0) == (h & ((h - 1) as usize) == 0))) by (bit_vector);
    }
}

/// Whether `n` is a power of two.
pub fn ispowerof2(n: usize) -> (r: bool)
    ensures
        r == is_pow2(n as nat),
{
    if n == 0 {
        return false;
    }
    proof {
        lemma_pow2_bits(n);
    }
    n != 0 && (n & (n - 1) == 0)
}

/// Narrows each wide digit to a byte; fails with "Try From Method failed to cast" when an entry
/// does not fit in a byte.
pub fn recast_user_vec(v: Vec<u16>) -> (r: Result<Vec<u8>, &'static str>)
    ensures
        (r is Ok) == (forall|i: int| 0 <= i < v@.len() ==> v@[i] <= 255),
        r matches Ok(w) ==> w@.len() == v@.len() && forall|i: int|
            0 <= i < v@.len() ==> #[trigger] w@[i] == v@[i],
        r matches Err(e) ==> e@ == "Try From Method failed to cast"@,
{
    let mut res: Vec<u8> = Vec::new();
    for i in 0..v.len()
        invariant
            res@.len() == i,
            forall|j: int| 0 <= j < i ==> #[trigger] v@[j] <= 255,
            forall|j: int| 0 <= j < i ==> #[trigger] res@[j] == v@[j],
    {
        if v[i] > 255 {
            return Err("Try From Method failed to cast");
        }
        res.push(v[i] as u8);
    }
    Ok(res)
}

/// The carry into position `i` when the wide digits `v` are carried into decimal digits, least
/// significant first.
pub open spec fn carry_into(v: Seq<u16>, i: int) -> int
    decreases i,
{
    if i <= 0 {
        0
    } else {
        (v[i - 1] + carry_into(v, i - 1)) / 10
    }
}

/// Carrying the wide digits `v` stays within their width, and the final carry fits in a byte.
pub open spec fn carries_fit(v: Seq<u16>) -> bool {
    &&& forall|i: int| 0 <= i < v.len() ==> #[trigger] v[i] + carry_into(v, i) <= u16::MAX
    &&& carry_into(v, v.len() as int) <= 255
}

/// Converts wide digits (least significant first, each possibly above 9) to single decimal
/// digits by carrying; a final carry is put in front of the digits.
pub fn convert_poly(v: Vec<u16>) -> (r: Vec<u8>)
    requires
        carries_fit(v@),
    ensures
        carry_into(v@, v@.len() as int) > 0 ==> r@.len() == v@.len() + 1 && r@[0]
            == carry_into(v@, v@.len() as int) && forall|i: int|
            0 <= i < v@.len() ==> #[trigger] r@[i + 1] == (v@[i] + carry_into(v@, i)) % 10,
        carry_into(v@, v@.len() as int) == 0 ==> r@.len() == v@.len() && forall|i: int|
            0 <= i < v@.len() ==> #[trigger] r@[i] == (v@[i] + carry_into(v@, i)) % 10,
{
    let n = v.len();
    let mut carry: u16 = 0;
    let mut a: Vec<u16> = Vec::new();
    for i in 0..n
        invariant
            n == v@.len(),
            carries_fit(v@),
            carry == carry_into(v@, i as int),
            a@.len() == i,
            forall|j: int| 0 <= j < i ==> #[trigger] a@[j] == (v@[j] + carry_into(v@, j)) % 10,
    {
        let e = v[i] + carry;
        carry = e / 10;
        a.push(e % 10);
    }
    if carry > 0 {
        a.insert(0, carry);
    }
    let ghost aw = a@;
    assert forall|i: int| 0 <= i < aw.len() implies aw[i] <= 255 by {
        if carry > 0 && i > 0 {
            assert(aw[i] == (v@[i - 1] + carry_into(v@, i - 1)) % 10);
        }
    }
    recast_user_vec(a).unwrap()
}

} // verus!
