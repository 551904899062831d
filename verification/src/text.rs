//! Whole numbers read from text.

use crate::fixed::{Fixed, LIMIT};
use vstd::arithmetic::div_mod::lemma_div_denominator;
use vstd::prelude::*;
use vstd::slice::slice_subrange;

verus! {

/// The largest number that the digits of a decimal number may spell, point
/// and exponent left aside.
pub const MANTISSA_LIMIT: u128 = 10_000_000_000_000_000_000_000_000_000;

/// The largest magnitude of an exponent.
pub const EXPONENT_LIMIT: i64 = 99;

/// Ten to the power `n`.
pub open spec fn pow10(n: nat) -> int
    decreases n,
{
    if n == 0 {
        1
    } else {
        10 * pow10((n - 1) as nat)
    }
}

/// The byte is a decimal digit.
pub open spec fn is_digit(b: u8) -> bool {
    48 <= b <= 57
}

/// Every byte of `s` is a decimal digit.
pub open spec fn all_digits(s: Seq<u8>) -> bool {
    forall|i: int| 0 <= i < s.len() ==> is_digit(#[trigger] s[i])
}

/// The number that the digits of `s` spell, most significant first.
pub open spec fn digits_value(s: Seq<u8>) -> nat
    decreases s.len(),
{
    if s.len() == 0 {
        0
    } else {
        (10 * digits_value(s.drop_last()) + (s.last() - 48)) as nat
    }
}

/// The text starts with a sign.
pub open spec fn has_sign(s: Seq<u8>) -> bool {
    s.len() > 0 && (s[0] == 43 || s[0] == 45)
}

/// The text starts with a minus sign.
pub open spec fn is_negative(s: Seq<u8>) -> bool {
    s.len() > 0 && s[0] == 45
}

/// The text without its sign.
pub open spec fn unsigned_part(s: Seq<u8>) -> Seq<u8> {
    if has_sign(s) {
        s.subrange(1, s.len() as int)
    } else {
        s
    }
}

/// The whole number that the text spells: an optional sign, then one or
/// more decimal digits, with a value that 64 bits hold.
pub open spec fn integer_value(s: Seq<u8>) -> Option<int> {
    let body = unsigned_part(s);
    let v = if is_negative(s) {
        -(digits_value(body) as int)
    } else {
        digits_value(body) as int
    };
    if body.len() > 0 && all_digits(body) && i64::MIN <= v <= i64::MAX {
        Some(v)
    } else {
        None
    }
}

/// What an optional number holds.
pub open spec fn as_int(r: Option<i64>) -> Option<int> {
    match r {
        Some(v) => Some(v as int),
        None => None,
    }
}

/// One more digit behind the digits of `s`.
pub proof fn lemma_digits_value_push(s: Seq<u8>, b: u8)
    requires
        is_digit(b),
    ensures
        digits_value(s.push(b)) == 10 * digits_value(s) + (b - 48),
{
    assert(s.push(b).drop_last() =~= s);
}

/// Among digit strings, a prefix never spells more than the whole.
pub proof fn lemma_digits_value_grows(s: Seq<u8>, k: int)
    requires
        0 <= k <= s.len(),
        all_digits(s),
    ensures
        digits_value(s.subrange(0, k)) <= digits_value(s),
    decreases s.len() - k,
{
    if k < s.len() {
        lemma_digits_value_grows(s, k + 1);
        assert(s.subrange(0, k + 1).drop_last() =~= s.subrange(0, k));
        assert(is_digit(s.subrange(0, k + 1).last()));
    } else {
        assert(s.subrange(0, k) =~= s);
    }
}

/// Reads a whole number.
pub fn parse_i64(s: &[u8]) -> (r: Option<i64>)
    ensures
        as_int(r) == integer_value(s@),
{
    let n = s.len();
    let mut i: usize = 0;
    let mut negative = false;
    if n > 0 && (s[0] == 43 || s[0] == 45) {
        negative = s[0] == 45;
        i = 1;
    }
    let start = i;
    if i == n {
        return None;
    }
    let ghost body = unsigned_part(s@);
    assert(body =~= s@.subrange(start as int, n as int));
    let mut value: u128 = 0;
    while i < n
        invariant
            start <= i <= n,
            n == s@.len(),
            start < n,
            body == s@.subrange(start as int, n as int),
            body == unsigned_part(s@),
            negative == is_negative(s@),
            all_digits(body.subrange(0, i - start)),
            value == digits_value(body.subrange(0, i - start)),
            value <= 0x8000_0000_0000_0000,
        decreases n - i,
    {
        let b = s[i];
        let ghost before = body.subrange(0, i - start);
        assert(body.subrange(0, i + 1 - start) =~= before.push(b));
        if b < 48 || b > 57 {
            assert(!is_digit(body[i - start]));
            return None;
        }
        proof {
            lemma_digits_value_push(before, b);
        }
        value = 10 * value + (b - 48) as u128;
        if value > 0x8000_0000_0000_0000 {
            proof {
                if all_digits(body) {
                    lemma_digits_value_grows(body, i + 1 - start);
                }
            }
            return None;
        }
        i = i + 1;
    }
    assert(body.subrange(0, n - start) =~= body);
    if negative {
        if value == 0x8000_0000_0000_0000 {
            Some(i64::MIN)
        } else {
            Some(-(value as i64))
        }
    } else if value == 0x8000_0000_0000_0000 {
        None
    } else {
        Some(value as i64)
    }
}

/// The first place from `i` on at which no digit stands.
pub open spec fn digits_end(s: Seq<u8>, i: int) -> int
    decreases s.len() - i,
{
    if 0 <= i < s.len() && is_digit(s[i]) {
        digits_end(s, i + 1)
    } else {
        i
    }
}

/// The parts of a decimal number: the digits before the point, the digits
/// behind it, and the text of the exponent where there is one.
pub struct DecimalParts {
    pub whole: Seq<u8>,
    pub fraction: Seq<u8>,
    pub exponent: Option<Seq<u8>>,
}

/// The parts of the decimal number that the text spells: an optional sign,
/// digits, optionally a point and more digits, optionally the letter `e` or
/// `E` and an exponent. At least one digit stands before the exponent.
pub open spec fn decimal_parts(s: Seq<u8>) -> Option<DecimalParts> {
    let a: int = if has_sign(s) {
        1
    } else {
        0
    };
    let b = digits_end(s, a);
    let has_point = b < s.len() && s[b] == 46;
    let c = if has_point {
        digits_end(s, b + 1)
    } else {
        b
    };
    let whole = s.subrange(a, b);
    let fraction = if has_point {
        s.subrange(b + 1, c)
    } else {
        Seq::empty()
    };
    if whole.len() + fraction.len() == 0 {
        None
    } else if c == s.len() {
        Some(DecimalParts { whole, fraction, exponent: None })
    } else if s[c] == 101 || s[c] == 69 {
        Some(DecimalParts { whole, fraction, exponent: Some(s.subrange(c + 1, s.len() as int)) })
    } else {
        None
    }
}

/// The exponent that the text spells: a whole number of at most two digits'
/// worth; no text is the exponent zero.
pub open spec fn exponent_value(e: Option<Seq<u8>>) -> Option<int> {
    match e {
        None => Some(0),
        Some(t) => match integer_value(t) {
            Some(v) => if -EXPONENT_LIMIT <= v <= EXPONENT_LIMIT {
                Some(v)
            } else {
                None
            },
            None => None,
        },
    }
}

/// `m` times ten to the power `k`, rounded down where `k` is negative.
pub open spec fn shifted(m: int, k: int) -> int {
    if k >= 0 {
        m * pow10(k as nat)
    } else {
        m / pow10((-k) as nat)
    }
}

/// The raw value of the decimal number that the text spells, with nine
/// places: what stands beyond the ninth place is cut off. Text that is no
/// decimal number has no value, nor has a number with too many digits, too
/// large an exponent, or a value beyond the limit.
pub open spec fn decimal_value(s: Seq<u8>) -> Option<int> {
    match decimal_parts(s) {
        None => None,
        Some(p) => match exponent_value(p.exponent) {
            None => None,
            Some(e) => {
                let m = digits_value(p.whole + p.fraction) as int;
                let magnitude = shifted(m, 9 + e - p.fraction.len());
                if m > MANTISSA_LIMIT || magnitude > LIMIT {
                    None
                } else if is_negative(s) {
                    Some(-magnitude)
                } else {
                    Some(magnitude)
                }
            },
        },
    }
}

/// What an optional number holds, as a raw value.
pub open spec fn as_raw(r: Option<Fixed>) -> Option<int> {
    match r {
        Some(f) => Some(f@),
        None => None,
    }
}

/// Ten to any power is at least one.
pub proof fn lemma_pow10_positive(n: nat)
    ensures
        pow10(n) >= 1,
    decreases n,
{
    if n > 0 {
        lemma_pow10_positive((n - 1) as nat);
    }
}

/// A higher power of ten is no smaller.
pub proof fn lemma_pow10_grows(j: nat, k: nat)
    requires
        j <= k,
    ensures
        pow10(j) <= pow10(k),
    decreases k,
{
    if j < k {
        lemma_pow10_grows(j, (k - 1) as nat);
        lemma_pow10_positive((k - 1) as nat);
    }
}

/// `m` times ten to the power `k`, or `None` where that exceeds `limit`.
fn shift_up(m: u128, k: u64, limit: u128) -> (r: Option<u128>)
    requires
        limit <= 1_000_000_000_000_000_000_000_000_000_000,
    ensures
        r is Some <==> m * pow10(k as nat) <= limit,
        r is Some ==> r.unwrap() == m * pow10(k as nat),
{
    if m > limit {
        proof {
            lemma_pow10_positive(k as nat);
            assert(m * pow10(k as nat) >= m) by (nonlinear_arith)
                requires
                    pow10(k as nat) >= 1,
                    m >= 0,
            ;
        }
        return None;
    }
    let mut v: u128 = m;
    let mut j: u64 = 0;
    while j < k
        invariant
            j <= k,
            v == m * pow10(j as nat),
            v <= limit,
            limit <= 1_000_000_000_000_000_000_000_000_000_000,
        decreases k - j,
    {
        assert(m * pow10((j + 1) as nat) == 10 * (m * pow10(j as nat))) by (nonlinear_arith)
            requires
                pow10((j + 1) as nat) == 10 * pow10(j as nat),
        ;
        let next = 10 * v;
        if next > limit {
            proof {
                lemma_pow10_grows((j + 1) as nat, k as nat);
                assert(m * pow10(k as nat) >= m * pow10((j + 1) as nat)) by (nonlinear_arith)
                    requires
                        pow10(k as nat) >= pow10((j + 1) as nat),
                        m >= 0,
                ;
            }
            return None;
        }
        v = next;
        j = j + 1;
    }
    Some(v)
}

/// `m` over ten to the power `k`, rounded down.
fn shift_down(m: u128, k: u64) -> (r: u128)
    ensures
        r == (m as int) / pow10(k as nat),
        r <= m,
{
    let mut v: u128 = m;
    let mut j: u64 = 0;
    while j < k && v > 0
        invariant
            j <= k,
            v == (m as int) / pow10(j as nat),
            v <= m,
        decreases k - j,
    {
        proof {
            lemma_pow10_positive(j as nat);
            lemma_div_denominator(m as int, pow10(j as nat), 10);
            assert(pow10(j as nat) * 10 == pow10((j + 1) as nat));
        }
        v = v / 10;
        j = j + 1;
    }
    proof {
        if j < k {
            // nothing is left: no further division changes that
            lemma_pow10_grows(j as nat, k as nat);
            lemma_pow10_positive(j as nat);
            lemma_nothing_left(m as int, pow10(j as nat), pow10(k as nat));
        }
    }
    v
}

/// A divisor that takes a number to nothing exceeds it, and so does every
/// larger divisor.
proof fn lemma_nothing_left(m: int, c: int, d: int)
    requires
        0 <= m,
        0 < c <= d,
        m / c == 0,
    ensures
        m / d == 0,
{
    vstd::arithmetic::div_mod::lemma_fundamental_div_mod(m, c);
    assert(c * 0 == 0);
    vstd::arithmetic::div_mod::lemma_basic_div(m, d);
}

/// The digits from `from` on, added to the number `m` that the digits
/// `before` spell: the place behind the last digit, and the number that all
/// the digits spell, or `None` where that exceeds the limit.
fn read_digits(s: &[u8], from: usize, m: Option<u128>, Ghost(before): Ghost<Seq<u8>>) -> (r: (
    usize,
    Option<u128>,
))
    requires
        from <= s@.len(),
        all_digits(before),
        m is Some <==> digits_value(before) <= MANTISSA_LIMIT,
        m is Some ==> m.unwrap() == digits_value(before),
    ensures
        r.0 == digits_end(s@, from as int),
        from <= r.0 <= s@.len(),
        all_digits(s@.subrange(from as int, r.0 as int)),
        r.1 is Some <==> digits_value(before + s@.subrange(from as int, r.0 as int))
            <= MANTISSA_LIMIT,
        r.1 is Some ==> r.1.unwrap() == digits_value(
            before + s@.subrange(from as int, r.0 as int),
        ),
{
    let n = s.len();
    let mut i = from;
    let mut value = m;
    assert(before + s@.subrange(from as int, from as int) =~= before);
    while i < n && 48 <= s[i] && s[i] <= 57
        invariant
            from <= i <= n,
            n == s@.len(),
            digits_end(s@, from as int) == digits_end(s@, i as int),
            all_digits(before),
            all_digits(s@.subrange(from as int, i as int)),
            value is Some <==> digits_value(before + s@.subrange(from as int, i as int))
                <= MANTISSA_LIMIT,
            value is Some ==> value.unwrap() == digits_value(
                before + s@.subrange(from as int, i as int),
            ),
        decreases n - i,
    {
        let b = s[i];
        let ghost sofar = before + s@.subrange(from as int, i as int);
        proof {
            assert(before + s@.subrange(from as int, i + 1) =~= sofar.push(b));
            assert(s@.subrange(from as int, i + 1) =~= s@.subrange(from as int, i as int).push(b));
            lemma_digits_value_push(sofar, b);
        }
        value = match value {
            None => None,
            Some(v) => {
                let next = 10 * v + (b - 48) as u128;
                if next > MANTISSA_LIMIT {
                    None
                } else {
                    Some(next)
                }
            },
        };
        i = i + 1;
    }
    (i, value)
}

/// Reads a decimal number with up to nine places.
pub fn parse_fixed(s: &[u8]) -> (r: Option<Fixed>)
    ensures
        as_raw(r) == decimal_value(s@),
{
    let n = s.len();
    let mut a: usize = 0;
    let mut negative = false;
    if n > 0 && (s[0] == 43 || s[0] == 45) {
        negative = s[0] == 45;
        a = 1;
    }
    assert(digits_value(Seq::<u8>::empty()) == 0);
    let (b, whole) = read_digits(s, a, Some(0), Ghost(Seq::empty()));
    assert(Seq::<u8>::empty() + s@.subrange(a as int, b as int) =~= s@.subrange(a as int, b as int));
    let has_point = b < n && s[b] == 46;
    let ghost whole_digits = s@.subrange(a as int, b as int);
    let (c, mantissa, places) = if has_point {
        let (c, m) = read_digits(s, b + 1, whole, Ghost(whole_digits));
        (c, m, c - (b + 1))
    } else {
        assert(whole_digits + Seq::<u8>::empty() =~= whole_digits);
        (b, whole, 0)
    };
    if (b - a) + places == 0 {
        return None;
    }
    let exponent: i64 = if c == n {
        0
    } else if s[c] == 101 || s[c] == 69 {
        match parse_i64(slice_subrange(s, c + 1, n)) {
            Some(e) => {
                if e < -EXPONENT_LIMIT || e > EXPONENT_LIMIT {
                    return None;
                }
                e
            },
            None => {
                return None;
            },
        }
    } else {
        return None;
    };
    let m = match mantissa {
        Some(m) => m,
        None => {
            return None;
        },
    };
    let k: i128 = 9 + exponent as i128 - places as i128;
    let magnitude = if k >= 0 {
        match shift_up(m, k as u64, 1_000_000_000_000_000_000) {
            Some(v) => v,
            None => {
                return None;
            },
        }
    } else if -k > 0xffff_ffff_ffff_ffff {
        proof {
            // more places than the number has digits
            lemma_pow10_exceeds((-k) as nat);
            vstd::arithmetic::div_mod::lemma_basic_div(m as int, pow10((-k) as nat));
        }
        0
    } else {
        shift_down(m, (-k) as u64)
    };
    if magnitude > 1_000_000_000_000_000_000 {
        return None;
    }
    let raw = if negative {
        -(magnitude as i64)
    } else {
        magnitude as i64
    };
    Fixed::from_raw(raw)
}

/// Ten to a power of a hundred or more exceeds every mantissa.
proof fn lemma_pow10_exceeds(k: nat)
    requires
        k >= 100,
    ensures
        pow10(k) > MANTISSA_LIMIT,
{
    lemma_pow10_grows(29, k);
    assert(pow10(29) == 100_000_000_000_000_000_000_000_000_000int) by {
        reveal_with_fuel(pow10, 30);
    }
}

} // verus!
