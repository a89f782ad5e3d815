//! Numbers as a user types them: plain integer or decimal notation.
use vstd::prelude::*;

verus! {

/// An exact decimal number, `mantissa / 10^scale`.
#[derive(Clone, Copy, Debug, PartialEq, Eq, Structural)]
pub struct Decimal {
    pub mantissa: i128,
    pub scale: usize,
}

/// A parsed entry: integer notation when the value fits an `isize`,
/// decimal notation otherwise.
#[derive(Clone, Copy, Debug, PartialEq, Eq, Structural)]
pub enum Number {
    Int(isize),
    Float(Decimal),
}

pub open spec fn pow10(n: nat) -> int
    decreases n,
{
    if n == 0 {
        1
    } else {
        10 * pow10((n - 1) as nat)
    }
}

pub proof fn lemma_pow10_positive(n: nat)
    ensures
        pow10(n) >= 1,
    decreases n,
{
    if n > 0 {
        lemma_pow10_positive((n - 1) as nat);
    }
}

pub proof fn lemma_pow10_monotone(a: nat, b: nat)
    requires
        a <= b,
    ensures
        pow10(a) <= pow10(b),
    decreases b - a,
{
    if a < b {
        lemma_pow10_monotone(a, (b - 1) as nat);
        lemma_pow10_positive((b - 1) as nat);
    }
}

/// `10^n`, or `None` where it exceeds `u128::MAX`.
pub fn checked_pow10(n: usize) -> (r: Option<u128>)
    ensures
        match r {
            Some(v) => v == pow10(n as nat),
            None => pow10(n as nat) > u128::MAX,
        },
{
    let mut v: u128 = 1;
    let mut i: usize = 0;
    while i < n
        invariant
            i <= n,
            v == pow10(i as nat),
        decreases n - i,
    {
        match v.checked_mul(10) {
            Some(w) => {
                v = w;
            },
            None => {
                proof {
                    lemma_pow10_monotone((i + 1) as nat, n as nat);
                }
                return None;
            },
        }
        i += 1;
    }
    Some(v)
}

pub open spec fn is_digit(c: char) -> bool {
    '0' <= c && c <= '9'
}

pub open spec fn digit_value(c: char) -> int {
    c as int - '0' as int
}

pub open spec fn all_digits(s: Seq<char>) -> bool {
    forall|i: int| 0 <= i < s.len() ==> is_digit(#[trigger] s[i])
}

/// The number that a run of decimal digits spells, most significant first.
pub open spec fn digits_value(s: Seq<char>) -> int
    decreases s.len(),
{
    if s.len() == 0 {
        0
    } else {
        digits_value(s.drop_last()) * 10 + digit_value(s.last())
    }
}

pub open spec fn has_sign(t: Seq<char>) -> bool {
    t.len() > 0 && (t[0] == '+' || t[0] == '-')
}

pub open spec fn sign_factor(t: Seq<char>) -> int {
    if has_sign(t) && t[0] == '-' {
        -1
    } else {
        1
    }
}

/// The text after its sign, if it has one.
pub open spec fn unsigned_part(t: Seq<char>) -> Seq<char> {
    if has_sign(t) {
        t.drop_first()
    } else {
        t
    }
}

/// Integer notation: an optional sign, then one or more digits.
pub open spec fn is_integer_text(t: Seq<char>) -> bool {
    unsigned_part(t).len() > 0 && all_digits(unsigned_part(t))
}

pub open spec fn integer_value(t: Seq<char>) -> int {
    sign_factor(t) * digits_value(unsigned_part(t))
}

/// `u` is decimal notation with its point at index `p`, or without a point
/// when `p == u.len()`: every other character is a digit, and there is at
/// least one digit.
pub open spec fn point_at(u: Seq<char>, p: int) -> bool {
    &&& 0 <= p <= u.len()
    &&& p < u.len() ==> u[p] == '.'
    &&& forall|i: int| 0 <= i < u.len() && i != p ==> is_digit(#[trigger] u[i])
    &&& if p < u.len() {
        u.len() >= 2
    } else {
        u.len() >= 1
    }
}

/// Decimal notation: an optional sign, then digits with at most one point
/// among them, and at least one digit (`7`, `-7.25`, `7.`, `.5`).
pub open spec fn is_decimal_text(t: Seq<char>) -> bool {
    exists|p: int| point_at(unsigned_part(t), p)
}

pub open spec fn point_of(t: Seq<char>) -> int {
    choose|p: int| point_at(unsigned_part(t), p)
}

/// The digits of decimal notation, with the point taken out.
pub open spec fn decimal_digits(t: Seq<char>) -> Seq<char> {
    let u = unsigned_part(t);
    let p = point_of(t);
    if p < u.len() {
        u.take(p) + u.skip(p + 1)
    } else {
        u
    }
}

pub open spec fn decimal_mantissa(t: Seq<char>) -> int {
    sign_factor(t) * digits_value(decimal_digits(t))
}

/// The number of digits after the point.
pub open spec fn decimal_scale(t: Seq<char>) -> int {
    let u = unsigned_part(t);
    let p = point_of(t);
    if p < u.len() {
        u.len() - p - 1
    } else {
        0
    }
}

pub open spec fn fits_isize(v: int) -> bool {
    isize::MIN <= v <= isize::MAX
}

pub open spec fn fits_i128(v: int) -> bool {
    i128::MIN <= v <= i128::MAX
}

/// Text that reads as an integer whose value an `isize` holds.
pub open spec fn reads_as_int(t: Seq<char>) -> bool {
    is_integer_text(t) && fits_isize(integer_value(t))
}

/// Text that reads as a decimal whose mantissa an `i128` holds.
pub open spec fn reads_as_decimal(t: Seq<char>) -> bool {
    is_decimal_text(t) && fits_i128(decimal_mantissa(t))
}

pub open spec fn reads_as_plain(t: Seq<char>) -> bool {
    reads_as_int(t) || reads_as_decimal(t)
}

/// The value of text in integer or decimal notation.
pub open spec fn plain_value(t: Seq<char>) -> Decimal {
    if reads_as_int(t) {
        Decimal { mantissa: integer_value(t) as i128, scale: 0 }
    } else {
        Decimal { mantissa: decimal_mantissa(t) as i128, scale: decimal_scale(t) as usize }
    }
}

pub open spec fn is_exponent_marker(c: char) -> bool {
    c == 'e' || c == 'E'
}

/// `t[k]` is the first `e` or `E` of `t`.
pub open spec fn marker_at(t: Seq<char>, k: int) -> bool {
    &&& 0 <= k < t.len()
    &&& is_exponent_marker(t[k])
    &&& forall|i: int| 0 <= i < k ==> !is_exponent_marker(#[trigger] t[i])
}

pub open spec fn has_exponent(t: Seq<char>) -> bool {
    exists|k: int| marker_at(t, k)
}

pub open spec fn marker_of(t: Seq<char>) -> int {
    choose|k: int| marker_at(t, k)
}

/// What stands before the exponent marker.
pub open spec fn coefficient(t: Seq<char>) -> Seq<char> {
    t.take(marker_of(t))
}

/// What stands after the exponent marker.
pub open spec fn exponent_part(t: Seq<char>) -> Seq<char> {
    t.skip(marker_of(t) + 1)
}

/// The places by which the exponent leaves the point left of the last digit.
pub open spec fn scientific_shift(t: Seq<char>) -> int {
    plain_value(coefficient(t)).scale - integer_value(exponent_part(t))
}

pub open spec fn scientific_mantissa(t: Seq<char>) -> int {
    let m = plain_value(coefficient(t)).mantissa;
    if scientific_shift(t) >= 0 {
        m as int
    } else {
        m * pow10((-scientific_shift(t)) as nat)
    }
}

pub open spec fn scientific_scale(t: Seq<char>) -> int {
    if scientific_shift(t) >= 0 {
        scientific_shift(t)
    } else {
        0
    }
}

/// Scientific notation: integer or decimal notation, `e` or `E`, and an
/// integer exponent, with a value that a `Decimal` holds (`1.5e3`, `2E-2`).
pub open spec fn reads_as_scientific(t: Seq<char>) -> bool {
    &&& has_exponent(t)
    &&& reads_as_plain(coefficient(t))
    &&& reads_as_int(exponent_part(t))
    &&& fits_i128(scientific_mantissa(t))
    &&& scientific_scale(t) <= usize::MAX
}

proof fn lemma_plain_has_no_marker(t: Seq<char>, k: int)
    requires
        0 <= k < t.len(),
        is_exponent_marker(t[k]),
    ensures
        !reads_as_int(t),
        !reads_as_decimal(t),
{
    let u = unsigned_part(t);
    if has_sign(t) {
        assert(k != 0);
        assert(u[k - 1] == t[k]);
        assert(!is_digit(u[k - 1]));
        assert forall|q: int| !point_at(u, q) by {
            if point_at(u, q) {
                assert(q == k - 1 || is_digit(u[k - 1]));
            }
        }
    } else {
        assert(u[k] == t[k]);
        assert(!is_digit(u[k]));
        assert forall|q: int| !point_at(u, q) by {
            if point_at(u, q) {
                assert(q == k || is_digit(u[k]));
            }
        }
    }
}

proof fn lemma_point_unique(u: Seq<char>, p: int, q: int)
    requires
        point_at(u, p),
        point_at(u, q),
    ensures
        p == q,
{
    if p < q {
        if q < u.len() {
            assert(is_digit(u[q]));
        } else {
            assert(is_digit(u[p]));
        }
    } else if q < p {
        if p < u.len() {
            assert(is_digit(u[p]));
        } else {
            assert(is_digit(u[q]));
        }
    }
}

/// The digits of `u[..j]` with the point at `p`, if it lies before `j`, taken out.
spec fn digits_before(u: Seq<char>, p: int, j: int) -> Seq<char> {
    if p < j {
        u.take(p) + u.subrange(p + 1, j)
    } else {
        u.take(j)
    }
}

impl Number {
    /// The number as a decimal; an integer has scale zero.
    pub fn value(&self) -> (d: Decimal)
        ensures
            d == match *self {
                Number::Int(i) => Decimal { mantissa: i as i128, scale: 0 },
                Number::Float(f) => f,
            },
    {
        match *self {
            Number::Int(i) => Decimal { mantissa: i as i128, scale: 0 },
            Number::Float(f) => f,
        }
    }
}

/// Reads text without an exponent: as an integer where it is integer
/// notation whose value an `isize` holds, else as a decimal where it is
/// decimal notation whose mantissa an `i128` holds, else not at all.
fn parse_plain(text: &str) -> (r: Option<Number>)
    ensures
        match r {
            Some(Number::Int(v)) => reads_as_int(text@) && v == integer_value(text@),
            Some(Number::Float(d)) => {
                &&& !reads_as_int(text@)
                &&& reads_as_decimal(text@)
                &&& d.mantissa == decimal_mantissa(text@)
                &&& d.scale == decimal_scale(text@)
            },
            None => !reads_as_int(text@) && !reads_as_decimal(text@),
        },
{
    let n = text.unicode_len();
    let ghost t = text@;
    let mut start: usize = 0;
    let mut negative = false;
    if n > 0 {
        let c0 = text.get_char(0);
        if c0 == '+' {
            start = 1;
        } else if c0 == '-' {
            start = 1;
            negative = true;
        }
    }
    let ghost u = unsigned_part(t);
    assert(u =~= t.skip(start as int));
    let len: usize = n - start;
    let mut j: usize = 0;
    let mut has_point = false;
    let mut point: usize = len;
    let mut magnitude: u128 = 0;
    let mut overflow = false;
    while j < len
        invariant
            t == text@,
            n == t.len(),
            start + len == n,
            u =~= t.skip(start as int),
            u == unsigned_part(t),
            len == u.len(),
            negative <==> sign_factor(t) == -1,
            j <= len,
            has_point ==> point < j && u[point as int] == '.',
            !has_point ==> point == len,
            forall|i: int| 0 <= i < j && i != point ==> is_digit(#[trigger] u[i]),
            !overflow ==> magnitude == digits_value(digits_before(u, point as int, j as int)),
            overflow ==> digits_value(digits_before(u, point as int, j as int)) > u128::MAX,
        decreases len - j,
    {
        let c = text.get_char(start + j);
        assert(c == u[j as int]);
        if '0' <= c && c <= '9' {
            let ghost before = digits_before(u, point as int, j as int);
            assert(digits_before(u, point as int, j + 1) =~= before.push(c));
            assert(before.push(c).drop_last() =~= before);
            if !overflow {
                let d = (c as u32 - '0' as u32) as u128;
                match magnitude.checked_mul(10) {
                    Some(m) => match m.checked_add(d) {
                        Some(v) => {
                            magnitude = v;
                        },
                        None => {
                            overflow = true;
                        },
                    },
                    None => {
                        overflow = true;
                    },
                }
            }
        } else if c == '.' && !has_point {
            assert(digits_before(u, j as int, j + 1) =~= digits_before(u, point as int, j as int));
            has_point = true;
            point = j;
        } else {
            proof {
                assert(!all_digits(u));
                assert forall|q: int| !point_at(u, q) by {
                    if point_at(u, q) {
                        if q != j as int {
                            assert(is_digit(u[j as int]));
                        } else {
                            assert(is_digit(u[point as int]));
                        }
                    }
                }
                assert(!is_integer_text(t));
                assert(!is_decimal_text(t));
            }
            return None;
        }
        j += 1;
    }
    if len == 0 || (has_point && len == 1) {
        proof {
            if len > 0 {
                assert(!is_digit(u[0]));
            }
            assert forall|q: int| !point_at(u, q) by {
                if point_at(u, q) && len > 0 {
                    assert(q == 0 || is_digit(u[0]));
                }
            }
        }
        return None;
    }
    proof {
        assert(point_at(u, point as int));
        lemma_point_unique(u, point as int, point_of(t));
        assert(decimal_digits(t) =~= digits_before(u, point as int, len as int));
        if has_point {
            assert(!is_digit(u[point as int]));
        } else {
            assert(decimal_digits(t) =~= u);
        }
    }
    if overflow {
        return None;
    }
    let mantissa: i128;
    if magnitude <= i128::MAX as u128 {
        mantissa = if negative {
            -(magnitude as i128)
        } else {
            magnitude as i128
        };
    } else if negative && magnitude == i128::MAX as u128 + 1 {
        mantissa = i128::MIN;
    } else {
        return None;
    }
    if !has_point && isize::MIN as i128 <= mantissa && mantissa <= isize::MAX as i128 {
        return Some(Number::Int(mantissa as isize));
    }
    let scale: usize = if has_point {
        len - 1 - point
    } else {
        0
    };
    Some(Number::Float(Decimal { mantissa, scale }))
}

/// Reads an entry: as an integer where it is integer notation whose value an
/// `isize` holds; else as a decimal where it is decimal notation whose
/// mantissa an `i128` holds, or scientific notation whose value a `Decimal`
/// holds; else not at all.
pub fn parse(text: &str) -> (r: Option<Number>)
    ensures
        match r {
            Some(Number::Int(v)) => reads_as_int(text@) && v == integer_value(text@),
            Some(Number::Float(d)) => {
                &&& !reads_as_int(text@)
                &&& reads_as_decimal(text@) ==> d == plain_value(text@)
                &&& reads_as_scientific(text@) ==> {
                    &&& d.mantissa == scientific_mantissa(text@)
                    &&& d.scale == scientific_scale(text@)
                }
                &&& reads_as_decimal(text@) || reads_as_scientific(text@)
            },
            None => !reads_as_int(text@) && !reads_as_decimal(text@) && !reads_as_scientific(
                text@,
            ),
        },
        reads_as_scientific(text@) ==> !reads_as_int(text@) && !reads_as_decimal(text@),
{
    let n = text.unicode_len();
    let mut k: usize = 0;
    while k < n
        invariant
            n == text@.len(),
            k <= n,
            forall|i: int| 0 <= i < k ==> !is_exponent_marker(#[trigger] text@[i]),
        decreases n - k,
    {
        let c = text.get_char(k);
        if c == 'e' || c == 'E' {
            return parse_scientific(text, k);
        }
        k += 1;
    }
    proof {
        assert forall|j: int| !marker_at(text@, j) by {
            if marker_at(text@, j) {
                assert(!is_exponent_marker(text@[j]));
            }
        }
    }
    parse_plain(text)
}

/// Reads text whose first exponent marker stands at `k`.
fn parse_scientific(text: &str, k: usize) -> (r: Option<Number>)
    requires
        marker_at(text@, k as int),
    ensures
        !reads_as_int(text@),
        !reads_as_decimal(text@),
        match r {
            Some(Number::Float(d)) => {
                &&& reads_as_scientific(text@)
                &&& d.mantissa == scientific_mantissa(text@)
                &&& d.scale == scientific_scale(text@)
            },
            Some(Number::Int(_)) => false,
            None => !reads_as_scientific(text@),
        },
{
    let ghost t = text@;
    let n = text.unicode_len();
    proof {
        lemma_plain_has_no_marker(t, k as int);
        let j = marker_of(t);
        assert(marker_at(t, j));
        if j < k {
            assert(!is_exponent_marker(t[j]));
        } else if k < j {
            assert(!is_exponent_marker(t[k as int]));
        }
    }
    let coef = text.substring_char(0, k);
    let ex = text.substring_char(k + 1, n);
    assert(coef@ == coefficient(t));
    assert(ex@ == exponent_part(t));
    let cd = match parse_plain(coef) {
        Some(c) => c.value(),
        None => {
            return None;
        },
    };
    assert(cd == plain_value(coef@));
    let e = match parse_plain(ex) {
        Some(Number::Int(e)) => e,
        _ => {
            return None;
        },
    };
    let shift: i128 = cd.scale as i128 - e as i128;
    assert(shift == scientific_shift(t));
    if shift >= 0 {
        if shift <= usize::MAX as i128 {
            return Some(Number::Float(Decimal { mantissa: cd.mantissa, scale: shift as usize }));
        }
        return None;
    }
    if cd.mantissa == 0 {
        assert(scientific_mantissa(t) == 0);
        return Some(Number::Float(Decimal { mantissa: 0, scale: 0 }));
    }
    let up: i128 = -shift;
    if up > 38 {
        proof {
            reveal_with_fuel(pow10, 40);
            lemma_pow10_monotone(39, up as nat);
            let p = pow10(up as nat);
            let m = cd.mantissa as int;
            assert(p > i128::MAX);
            if m > 0 {
                assert(m * p >= p) by (nonlinear_arith)
                    requires
                        m >= 1,
                        p >= 0,
                ;
            } else {
                assert(m * p <= -p) by (nonlinear_arith)
                    requires
                        m <= -1,
                        p >= 0,
                ;
            }
        }
        return None;
    }
    proof {
        reveal_with_fuel(pow10, 40);
        lemma_pow10_monotone(up as nat, 38);
    }
    let p = match checked_pow10(up as usize) {
        Some(p) => p,
        None => {
            return None;
        },
    };
    match cd.mantissa.checked_mul(p as i128) {
        Some(m) => Some(Number::Float(Decimal { mantissa: m, scale: 0 })),
        None => None,
    }
}

} // verus!
