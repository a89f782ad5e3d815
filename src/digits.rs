//! Natural numbers of any size, as decimal digits, most significant first.
use vstd::prelude::*;
use crate::number::pow10;
use vstd::arithmetic::div_mod::lemma_fundamental_div_mod_converse;

verus! {

pub open spec fn digits_num(s: Seq<u8>) -> nat
    decreases s.len(),
{
    if s.len() == 0 {
        0
    } else {
        digits_num(s.drop_last()) * 10 + s.last() as nat
    }
}

pub open spec fn all_decimal(s: Seq<u8>) -> bool {
    forall|i: int| 0 <= i < s.len() ==> #[trigger] s[i] < 10
}

/// No zero leads: the digits of a number as it is written.
pub open spec fn canonical(s: Seq<u8>) -> bool {
    all_decimal(s) && (s.len() > 0 ==> s[0] != 0)
}

pub proof fn lemma_push(s: Seq<u8>, d: u8)
    ensures
        digits_num(s.push(d)) == digits_num(s) * 10 + d,
{
    assert(s.push(d).drop_last() =~= s);
}

/// Appends the digits of `n`.
pub fn append_number(v: &mut Vec<u8>, n: u128)
    requires
        all_decimal(old(v)@),
    ensures
        all_decimal(final(v)@),
        final(v)@.len() > old(v)@.len(),
        digits_num(final(v)@) == digits_num(old(v)@) * pow10(
            (final(v)@.len() - old(v)@.len()) as nat,
        ) + n,
    decreases n,
{
    let ghost start = v@;
    if n >= 10 {
        append_number(v, n / 10);
    }
    let ghost mid = v@;
    v.push((n % 10) as u8);
    proof {
        lemma_push(mid, (n % 10) as u8);
        let k = (mid.len() - start.len()) as nat;
        assert(pow10(k + 1) == 10 * pow10(k));
        if n >= 10 {
            let s = digits_num(start) as int;
            let p = pow10(k);
            assert((s * p + n / 10) * 10 + n % 10 == s * (10 * p) + n) by (nonlinear_arith)
                requires
                    n == (n / 10) * 10 + n % 10,
            ;
        } else {
            assert(mid == start);
            assert(pow10(0) == 1);
        }
        assert(v@.len() - start.len() == k + 1);
    }
}

/// `10 * r + dig` as a quotient and a remainder by `d`, without leaving 128 bits.
fn step(r: u128, dig: u128, d: u128) -> (res: (u128, u128))
    requires
        r < d,
        d <= i128::MAX,
        dig < 10,
    ensures
        res.0 < 10,
        res.1 < d,
        10 * r + dig == res.0 * d + res.1,
{
    let mut acc: u128 = 0;
    let mut q: u128 = 0;
    let mut k: u128 = 0;
    while k < 10
        invariant
            r < d,
            d <= i128::MAX,
            k <= 10,
            acc < d,
            q <= k,
            k * r == q * d + acc,
        decreases 10 - k,
    {
        assert((k + 1) * r == k * r + r) by (nonlinear_arith);
        assert((q + 1) * d == q * d + d) by (nonlinear_arith);
        acc = acc + r;
        if acc >= d {
            acc = acc - d;
            q = q + 1;
        }
        k += 1;
    }
    let mut j: u128 = 0;
    while j < dig
        invariant
            r < d,
            d <= i128::MAX,
            dig < 10,
            j <= dig,
            acc < d,
            q <= 10 + j,
            10 * r + j == q * d + acc,
        decreases dig - j,
    {
        assert((q + 1) * d == q * d + d) by (nonlinear_arith);
        acc = acc + 1;
        if acc >= d {
            acc = acc - d;
            q = q + 1;
        }
        j += 1;
    }
    assert(q < 10) by (nonlinear_arith)
        requires
            10 * r + dig == q * d + acc,
            r < d,
            dig < 10,
            acc >= 0,
            d >= 1,
    ;
    (q, acc)
}

/// The digits of `x / d`, rounded down, without leading zeros.
pub fn div_small(x: &Vec<u8>, d: u128) -> (q: Vec<u8>)
    requires
        1 <= d <= i128::MAX,
        all_decimal(x@),
    ensures
        canonical(q@),
        digits_num(q@) == digits_num(x@) / d as nat,
{
    let mut q: Vec<u8> = Vec::new();
    let mut r: u128 = 0;
    let mut i: usize = 0;
    assert(x@.take(0) =~= Seq::<u8>::empty());
    assert(q@ =~= Seq::<u8>::empty());
    assert(digits_num(x@.take(0)) == 0);
    assert(digits_num(q@) == 0);
    while i < x.len()
        invariant
            1 <= d <= i128::MAX,
            all_decimal(x@),
            i <= x@.len(),
            all_decimal(q@),
            q@.len() <= i,
            q@.len() > 0 ==> q@[0] != 0,
            r < d,
            digits_num(x@.take(i as int)) == digits_num(q@) * d + r,
        decreases x@.len() - i,
    {
        let dig = x[i];
        let (qd, r2) = step(r, dig as u128, d);
        proof {
            assert(x@.take(i + 1) =~= x@.take(i as int).push(dig));
            lemma_push(x@.take(i as int), dig);
            lemma_push(q@, qd as u8);
            let qv = digits_num(q@) as int;
            assert(10 * (qv * d + r) + dig == (qv * 10 + qd) * d + r2) by (nonlinear_arith)
                requires
                    10 * r + dig == qd * d + r2,
            ;
        }
        if qd != 0 || q.len() > 0 {
            q.push(qd as u8);
        } else {
            proof {
                assert(digits_num(q@) == 0);
            }
        }
        r = r2;
        i += 1;
    }
    proof {
        assert(x@.take(x@.len() as int) =~= x@);
        lemma_fundamental_div_mod_converse(digits_num(x@) as int, d as int, digits_num(q@) as int, r as int);
    }
    q
}

/// The number, or `cap` where it is larger.
pub fn capped_value(s: &Vec<u8>, cap: u128) -> (r: u128)
    requires
        all_decimal(s@),
        cap <= u64::MAX,
    ensures
        r == if digits_num(s@) <= cap { digits_num(s@) } else { cap as nat },
{
    let mut v: u128 = 0;
    let mut i: usize = 0;
    assert(s@.take(0) =~= Seq::<u8>::empty());
    while i < s.len()
        invariant
            all_decimal(s@),
            cap <= u64::MAX,
            i <= s@.len(),
            v == if digits_num(s@.take(i as int)) <= cap { digits_num(s@.take(i as int)) } else { cap as nat },
        decreases s@.len() - i,
    {
        proof {
            assert(s@.take(i + 1) =~= s@.take(i as int).push(s@[i as int]));
            lemma_push(s@.take(i as int), s@[i as int]);
        }
        let next = v * 10 + s[i] as u128;
        v = if next <= cap { next } else { cap };
        i += 1;
    }
    proof {
        assert(s@.take(s@.len() as int) =~= s@);
    }
    v
}

} // verus!
