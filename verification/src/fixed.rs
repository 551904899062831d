//! Decimal fixed-point numbers with nine places, and the integer arithmetic
//! that every other module states its results in.

use crate::error::XdsError;
use vstd::arithmetic::div_mod::{lemma_fundamental_div_mod, lemma_fundamental_div_mod_converse};
use vstd::prelude::*;

verus! {

/// The raw value of the number one.
pub const ONE: i64 = 1_000_000_000;

/// The largest magnitude of a raw value: the numbers reach from minus to plus
/// one thousand million.
pub const LIMIT: i64 = 1_000_000_000_000_000_000;

/// A raw value that a `Fixed` can hold.
pub open spec fn fits(x: int) -> bool {
    -LIMIT <= x <= LIMIT
}

/// The quotient of `n` by `d`, rounded towards minus infinity, for `d != 0`.
pub open spec fn floor_quot(n: int, d: int) -> int {
    if d > 0 {
        n / d
    } else {
        (-n) / (-d)
    }
}

/// The raw product of two raw values.
pub open spec fn qmul(a: int, b: int) -> int {
    (a * b) / (ONE as int)
}

/// The raw quotient of two raw values, for `b != 0`.
pub open spec fn qdiv(a: int, b: int) -> int {
    floor_quot(a * ONE, b)
}

/// `r` is the integer square root of `n`: the largest `r` whose square does
/// not exceed `n`.
pub open spec fn is_isqrt(n: int, r: int) -> bool {
    0 <= r && r * r <= n < (r + 1) * (r + 1)
}

/// The integer square root of `n`, for `n >= 0`.
pub open spec fn isqrt(n: int) -> int {
    choose|r: int| is_isqrt(n, r)
}

/// The raw square root of a raw value, for `a >= 0`.
pub open spec fn qsqrt(a: int) -> int {
    isqrt(a * ONE)
}

/// A number with nine decimal places: `raw` thousand-millionths.
#[derive(Clone, Copy, Debug)]
pub struct Fixed {
    raw: i64,
}

impl View for Fixed {
    type V = int;

    closed spec fn view(&self) -> int {
        self.raw as int
    }
}

/// What a fallible result holds, as a raw value.
pub open spec fn value_of(r: Result<Fixed, XdsError>) -> Result<int, XdsError> {
    match r {
        Ok(f) => Ok(f@),
        Err(e) => Err(e),
    }
}

/// The raw value `x` where a `Fixed` can hold it, the range error where not.
pub open spec fn checked(x: int) -> Result<int, XdsError> {
    if fits(x) {
        Ok(x)
    } else {
        Err(XdsError::OutOfRange)
    }
}

/// The raw quotient where the divisor is not zero and the result fits.
pub open spec fn checked_qdiv(a: int, b: int) -> Result<int, XdsError> {
    if b == 0 {
        Err(XdsError::DegenerateGeometry)
    } else {
        checked(qdiv(a, b))
    }
}

/// The raw square root where the radicand is not negative.
pub open spec fn checked_qsqrt(a: int) -> Result<int, XdsError> {
    if a < 0 {
        Err(XdsError::DegenerateGeometry)
    } else {
        Ok(qsqrt(a))
    }
}

/// A number has no more than one integer square root.
pub proof fn lemma_isqrt_unique(n: int, r: int, s: int)
    requires
        is_isqrt(n, r),
        is_isqrt(n, s),
    ensures
        r == s,
{
    if r < s {
        assert((r + 1) * (r + 1) <= s * s) by (nonlinear_arith)
            requires
                0 <= r + 1 <= s,
        ;
    } else if s < r {
        assert((s + 1) * (s + 1) <= r * r) by (nonlinear_arith)
            requires
                0 <= s + 1 <= r,
        ;
    }
}

/// Between a number whose square is at most `n` and one whose square
/// exceeds it lies a number that meets the definition.
proof fn lemma_isqrt_between(n: int, lo: int, hi: int)
    requires
        0 <= lo < hi,
        lo * lo <= n < hi * hi,
    ensures
        exists|r: int| is_isqrt(n, r),
    decreases hi - lo,
{
    if hi == lo + 1 {
        assert(is_isqrt(n, lo));
    } else {
        let mid = lo + 1;
        if mid * mid <= n {
            lemma_isqrt_between(n, mid, hi);
        } else {
            assert(is_isqrt(n, lo));
        }
    }
}

/// Every number from zero on has an integer square root.
pub proof fn lemma_isqrt_exists(n: int)
    requires
        0 <= n,
    ensures
        is_isqrt(n, isqrt(n)),
{
    assert(n < (n + 1) * (n + 1)) by (nonlinear_arith)
        requires
            0 <= n,
    ;
    lemma_isqrt_between(n, 0, n + 1);
}

/// Whatever meets the definition is the integer square root.
pub proof fn lemma_isqrt_is(n: int, r: int)
    requires
        is_isqrt(n, r),
    ensures
        isqrt(n) == r,
{
    lemma_isqrt_unique(n, r, isqrt(n));
}

/// The quotient of `n` by a positive `d`, rounded towards minus infinity.
pub(crate) fn floor_div(n: i128, d: i128) -> (q: i128)
    requires
        d > 0,
        n > i128::MIN,
    ensures
        q == n / d,
        q == floor_quot(n as int, d as int),
{
    if n >= 0 {
        n / d
    } else {
        let m: i128 = -n;
        let q0: i128 = m / d;
        let r0: i128 = m % d;
        proof {
            lemma_fundamental_div_mod(m as int, d as int);
            assert(d * q0 == q0 * d) by (nonlinear_arith);
            if r0 == 0 {
                assert((-q0) * d == -(q0 * d)) by (nonlinear_arith);
                lemma_fundamental_div_mod_converse(n as int, d as int, -q0, 0);
            } else {
                assert((-q0 - 1) * d == -(q0 * d) - d) by (nonlinear_arith);
                lemma_fundamental_div_mod_converse(n as int, d as int, -q0 - 1, d - r0);
            }
            assert(0 <= q0 <= m) by (nonlinear_arith)
                requires
                    m == d * q0 + r0,
                    0 <= r0 < d,
                    m >= 0,
            ;
        }
        if r0 == 0 {
            -q0
        } else {
            -q0 - 1
        }
    }
}

/// The integer square root of `n`.
pub fn integer_sqrt(n: u128) -> (r: u128)
    ensures
        is_isqrt(n as int, r as int),
        r == isqrt(n as int),
        r < 0x1_0000_0000_0000_0000,
{
    let mut lo: u128 = 0;
    let mut hi: u128 = 0x1_0000_0000_0000_0000;
    assert(0x1_0000_0000_0000_0000int * 0x1_0000_0000_0000_0000int
        == 0x1_0000_0000_0000_0000_0000_0000_0000_0000int) by (nonlinear_arith);
    while hi - lo > 1
        invariant
            lo < hi <= 0x1_0000_0000_0000_0000,
            lo * lo <= n,
            n < hi * hi,
        decreases hi - lo,
    {
        let mid: u128 = lo + (hi - lo) / 2;
        assert(mid * mid <= 0xffff_ffff_ffff_ffff * 0xffff_ffff_ffff_ffff) by (nonlinear_arith)
            requires
                0 <= mid <= 0xffff_ffff_ffff_ffff,
        ;
        if mid * mid <= n {
            lo = mid;
        } else {
            hi = mid;
        }
    }
    proof {
        lemma_isqrt_is(n as int, lo as int);
    }
    lo
}

/// The number with raw value `x`, where it fits.
pub(crate) fn narrow(x: i128) -> (r: Result<Fixed, XdsError>)
    ensures
        value_of(r) == checked(x as int),
{
    if -(LIMIT as i128) <= x && x <= LIMIT as i128 {
        Ok(Fixed { raw: x as i64 })
    } else {
        Err(XdsError::OutOfRange)
    }
}

impl Fixed {
    #[verifier::type_invariant]
    closed spec fn in_range(self) -> bool {
        -LIMIT <= self.raw <= LIMIT
    }

    /// The number with the given raw value, where it fits.
    pub fn from_raw(raw: i64) -> (r: Option<Fixed>)
        ensures
            r is Some <==> fits(raw as int),
            r is Some ==> r.unwrap()@ == raw,
    {
        if -LIMIT <= raw && raw <= LIMIT {
            Some(Fixed { raw })
        } else {
            None
        }
    }

    /// The whole number `n`.
    pub fn from_int(n: i32) -> (r: Result<Fixed, XdsError>)
        ensures
            value_of(r) == checked(n * ONE),
    {
        narrow((n as i128) * 1_000_000_000)
    }

    /// Zero.
    pub fn zero() -> (r: Fixed)
        ensures
            r@ == 0,
    {
        Fixed { raw: 0 }
    }

    /// One.
    pub fn one() -> (r: Fixed)
        ensures
            r@ == ONE,
    {
        Fixed { raw: ONE }
    }

    /// The raw value.
    pub fn raw(&self) -> (r: i64)
        ensures
            r == self@,
            fits(r as int),
    {
        proof {
            use_type_invariant(self);
        }
        self.raw
    }

    /// Whether the number is zero.
    pub fn is_zero(&self) -> (r: bool)
        ensures
            r == (self@ == 0),
    {
        self.raw == 0
    }

    /// Whether the number is below zero.
    pub fn is_negative(&self) -> (r: bool)
        ensures
            r == (self@ < 0),
    {
        self.raw < 0
    }

    /// Whether `self` is smaller than `other`.
    pub fn lt(&self, other: &Fixed) -> (r: bool)
        ensures
            r == (self@ < other@),
    {
        self.raw < other.raw
    }

    /// Whether `self` is at most `other`.
    pub fn le(&self, other: &Fixed) -> (r: bool)
        ensures
            r == (self@ <= other@),
    {
        self.raw <= other.raw
    }

    /// Whether the two numbers are the same.
    pub fn same(&self, other: &Fixed) -> (r: bool)
        ensures
            r == (self@ == other@),
    {
        self.raw == other.raw
    }

    /// The number with the opposite sign.
    pub fn neg(&self) -> (r: Fixed)
        ensures
            r@ == -self@,
    {
        proof {
            use_type_invariant(self);
        }
        Fixed { raw: -self.raw }
    }

    /// The sum.
    pub fn add(&self, other: &Fixed) -> (r: Result<Fixed, XdsError>)
        ensures
            value_of(r) == checked(self@ + other@),
    {
        narrow(self.raw as i128 + other.raw as i128)
    }

    /// The difference.
    pub fn sub(&self, other: &Fixed) -> (r: Result<Fixed, XdsError>)
        ensures
            value_of(r) == checked(self@ - other@),
    {
        narrow(self.raw as i128 - other.raw as i128)
    }

    /// The product, rounded down to nine places.
    pub fn mul(&self, other: &Fixed) -> (r: Result<Fixed, XdsError>)
        ensures
            value_of(r) == checked(qmul(self@, other@)),
    {
        let p = wide_product(self.raw(), other.raw());
        narrow(floor_div(p, 1_000_000_000))
    }

    /// The quotient, rounded down to nine places; a zero divisor is an error.
    pub fn div(&self, other: &Fixed) -> (r: Result<Fixed, XdsError>)
        ensures
            value_of(r) == checked_qdiv(self@, other@),
    {
        let b = other.raw();
        if b == 0 {
            return Err(XdsError::DegenerateGeometry);
        }
        let n: i128 = (self.raw() as i128) * 1_000_000_000;
        if b > 0 {
            narrow(floor_div(n, b as i128))
        } else {
            narrow(floor_div(-n, -(b as i128)))
        }
    }

    /// The square root, rounded down to nine places; a negative number has
    /// none.
    pub fn sqrt(&self) -> (r: Result<Fixed, XdsError>)
        ensures
            value_of(r) == checked_qsqrt(self@),
    {
        let a = self.raw();
        if a < 0 {
            return Err(XdsError::DegenerateGeometry);
        }
        let n: u128 = (a as u128) * 1_000_000_000;
        let root = integer_sqrt(n);
        proof {
            assert(root <= LIMIT) by (nonlinear_arith)
                requires
                    root * root <= n,
                    n <= 1_000_000_000_000_000_000_000_000_000,
                    root >= 0,
            ;
        }
        Ok(Fixed { raw: root as i64 })
    }
}

/// The exact product of two raw values.
pub(crate) fn wide_product(a: i64, b: i64) -> (p: i128)
    requires
        fits(a as int),
        fits(b as int),
    ensures
        p == a * b,
        -1_000_000_000_000_000_000_000_000_000_000_000_000 <= p
            <= 1_000_000_000_000_000_000_000_000_000_000_000_000,
{
    assert(-1_000_000_000_000_000_000_000_000_000_000_000_000 <= a * b
        <= 1_000_000_000_000_000_000_000_000_000_000_000_000) by (nonlinear_arith)
        requires
            -1_000_000_000_000_000_000 <= a <= 1_000_000_000_000_000_000,
            -1_000_000_000_000_000_000 <= b <= 1_000_000_000_000_000_000,
    ;
    (a as i128) * (b as i128)
}

} // verus!
