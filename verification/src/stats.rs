//! The weighted mean of several determinations of one quantity, and the
//! uncertainty that goes with it.

use crate::error::XdsError;
use crate::fixed::{
    checked, fits, floor_div, floor_quot, integer_sqrt, isqrt, narrow, qdiv, qmul, wide_product,
    Fixed, LIMIT, ONE,
};
use vstd::arithmetic::div_mod::lemma_fundamental_div_mod;
use vstd::prelude::*;

verus! {

/// How the uncertainty of a weighted mean is derived.
#[derive(Clone, Copy, Debug, PartialEq, Eq, Structural)]
pub enum UncertaintyPolicy {
    /// The square root of the mean squared residual, each residual weighted
    /// by the uncertainty of its value.
    VarianceWeightedResidual,
    /// The mean of the uncertainties, each weighted by one minus the square
    /// of its value's residual relative to the mean. The weight falls below
    /// zero where a residual exceeds the mean itself.
    BoundedResidualWeight,
}

/// The raw values of a list of numbers.
pub open spec fn raws(v: Seq<Fixed>) -> Seq<int> {
    Seq::new(v.len(), |i: int| v[i]@)
}

/// The weight of a value with the uncertainty `sigma`: one over its square,
/// rounded down once. `sigma` is not zero.
pub open spec fn weight(sigma: int) -> int {
    (ONE * ONE * ONE) / (sigma * sigma)
}

/// The sum of the weights of the first `n` uncertainties.
pub open spec fn weight_sum(sigmas: Seq<int>, n: nat) -> int
    decreases n,
{
    if n == 0 {
        0
    } else {
        weight_sum(sigmas, (n - 1) as nat) + weight(sigmas[n - 1])
    }
}

/// The sum of the first `n` values, each times its weight.
pub open spec fn weighted_sum(values: Seq<int>, sigmas: Seq<int>, n: nat) -> int
    decreases n,
{
    if n == 0 {
        0
    } else {
        weighted_sum(values, sigmas, (n - 1) as nat) + qmul(values[n - 1], weight(sigmas[n - 1]))
    }
}

/// None of the first `n` uncertainties is zero.
pub open spec fn no_zero_sigma(sigmas: Seq<int>, n: nat) -> bool {
    forall|i: int| 0 <= i < n ==> sigmas[i] != 0
}

/// Each of the first `n` weights fits, and so does each value times its
/// weight.
pub open spec fn weights_fit(values: Seq<int>, sigmas: Seq<int>, n: nat) -> bool {
    forall|i: int|
        0 <= i < n ==> fits(#[trigger] weight(sigmas[i])) && fits(
            qmul(values[i], weight(sigmas[i])),
        )
}

/// The mean of the values, each weighted with one over the square of its
/// uncertainty: the weighted sum over the sum of the weights. An
/// uncertainty of zero, and weights that all round to zero, leave nothing to
/// divide by; values and uncertainties that do not pair up have no mean.
pub open spec fn weighted_mean(values: Seq<int>, sigmas: Seq<int>) -> Result<int, XdsError> {
    let n = values.len();
    let total = weight_sum(sigmas, n);
    let sum = weighted_sum(values, sigmas, n);
    if values.len() != sigmas.len() {
        Err(XdsError::InsufficientData)
    } else if !no_zero_sigma(sigmas, n) {
        Err(XdsError::DegenerateGeometry)
    } else if !weights_fit(values, sigmas, n) || !fits(total) || !fits(sum) {
        Err(XdsError::OutOfRange)
    } else if total == 0 {
        Err(XdsError::DegenerateGeometry)
    } else if !fits(qdiv(sum, total)) {
        Err(XdsError::OutOfRange)
    } else {
        Ok(qdiv(sum, total))
    }
}

/// The sum of anything that fits, taken `n` times over, stays within `n`
/// times the limit.
pub open spec fn within(sum: int, n: nat) -> bool {
    -(n * LIMIT) <= sum <= n * LIMIT
}

/// The weight of one uncertainty that is not zero.
fn weight_of(sigma: &Fixed) -> (w: i128)
    requires
        sigma@ != 0,
    ensures
        w == weight(sigma@),
        0 <= w,
{
    let s = sigma.raw();
    let square = wide_product(s, s);
    assert(square > 0) by (nonlinear_arith)
        requires
            square == s * s,
            s != 0,
    ;
    assert(ONE * ONE * ONE == 1_000_000_000_000_000_000_000_000_000int) by (nonlinear_arith)
        requires
            ONE == 1_000_000_000,
    ;
    1_000_000_000_000_000_000_000_000_000i128 / square
}

/// Whether none of the uncertainties is zero.
fn all_nonzero(sigmas: &Vec<Fixed>) -> (r: bool)
    ensures
        r == no_zero_sigma(raws(sigmas@), sigmas@.len()),
{
    let mut i: usize = 0;
    while i < sigmas.len()
        invariant
            i <= sigmas.len(),
            no_zero_sigma(raws(sigmas@), i as nat),
        decreases sigmas.len() - i,
    {
        if sigmas[i].is_zero() {
            assert(raws(sigmas@)[i as int] == 0);
            return false;
        }
        i = i + 1;
    }
    true
}

/// The mean of `vals`, each weighted with one over the square of its
/// uncertainty.
pub fn weighted_mean_of(vals: &Vec<Fixed>, sigmas: &Vec<Fixed>) -> (r: Result<Fixed, XdsError>)
    ensures
        crate::fixed::value_of(r) == weighted_mean(raws(vals@), raws(sigmas@)),
{
    let ghost values = raws(vals@);
    let ghost sig = raws(sigmas@);
    if vals.len() != sigmas.len() {
        return Err(XdsError::InsufficientData);
    }
    if !all_nonzero(sigmas) {
        return Err(XdsError::DegenerateGeometry);
    }
    let n = vals.len();
    let mut total: i128 = 0;
    let mut sum: i128 = 0;
    let mut i: usize = 0;
    while i < n
        invariant
            i <= n,
            n == vals.len(),
            n == sigmas.len(),
            values == raws(vals@),
            sig == raws(sigmas@),
            no_zero_sigma(sig, n as nat),
            weights_fit(values, sig, i as nat),
            total == weight_sum(sig, i as nat),
            sum == weighted_sum(values, sig, i as nat),
            within(total as int, i as nat),
            within(sum as int, i as nat),
        decreases n - i,
    {
        assert(sig[i as int] == sigmas[i as int]@ && values[i as int] == vals[i as int]@);
        let w = weight_of(&sigmas[i]);
        let wf = match narrow(w) {
            Ok(f) => f,
            Err(_) => {
                assert(!fits(weight(sig[i as int])));
                return Err(XdsError::OutOfRange);
            },
        };
        let term = floor_div(wide_product(vals[i].raw(), wf.raw()), 1_000_000_000);
        if term < -LIMIT as i128 || term > LIMIT as i128 {
            assert(!fits(qmul(values[i as int], weight(sig[i as int]))));
            return Err(XdsError::OutOfRange);
        }
        assert((i + 1) * LIMIT == i * LIMIT + LIMIT && i * LIMIT <= 0xffff_ffff_ffff_ffff * LIMIT)
            by (nonlinear_arith)
            requires
                0 <= i <= 0xffff_ffff_ffff_ffff,
        ;
        total = total + w;
        sum = sum + term;
        i = i + 1;
    }
    let total_f = narrow(total)?;
    let sum_f = narrow(sum)?;
    if total_f.is_zero() {
        return Err(XdsError::DegenerateGeometry);
    }
    assert(total > 0) by {
        lemma_weight_sum_nonnegative(sig, n as nat);
    }
    narrow(floor_div(sum * 1_000_000_000, total))
}

/// A sum of weights is never negative.
proof fn lemma_weight_sum_nonnegative(sigmas: Seq<int>, n: nat)
    requires
        no_zero_sigma(sigmas, n),
    ensures
        weight_sum(sigmas, n) >= 0,
    decreases n,
{
    if n > 0 {
        lemma_weight_sum_nonnegative(sigmas, (n - 1) as nat);
        lemma_weight_not_negative(sigmas[n - 1]);
    }
}

/// The square of the distance of a value from the mean.
pub open spec fn squared_residual(v: int, mean: int) -> int {
    qmul(v - mean, v - mean)
}

/// The sum of the first `n` uncertainties.
pub open spec fn sigma_sum(sigmas: Seq<int>, n: nat) -> int
    decreases n,
{
    if n == 0 {
        0
    } else {
        sigma_sum(sigmas, (n - 1) as nat) + sigmas[n - 1]
    }
}

/// The largest magnitude that a residual takes once it is squared and
/// multiplied by its uncertainty without rounding: a product of three raw
/// values, worth ten thousand million.
pub const WIDE_LIMIT: i128 = 10_000_000_000_000_000_000_000_000_000_000_000_000;

/// A product of three raw values within the limit.
pub open spec fn wide_fits(x: int) -> bool {
    -WIDE_LIMIT <= x <= WIDE_LIMIT
}

/// The squared residual of a value times its uncertainty, not rounded.
pub open spec fn wide_residual(v: int, sigma: int, mean: int) -> int {
    sigma * ((v - mean) * (v - mean))
}

/// The sum of the first `n` squared residuals, each times the uncertainty
/// of its value.
pub open spec fn residual_sum(values: Seq<int>, sigmas: Seq<int>, mean: int, n: nat) -> int
    decreases n,
{
    if n == 0 {
        0
    } else {
        residual_sum(values, sigmas, mean, (n - 1) as nat) + wide_residual(
            values[n - 1],
            sigmas[n - 1],
            mean,
        )
    }
}

/// Each of the first `n` squared residuals times its uncertainty stays
/// within the limit, and so does the sum up to each of them.
pub open spec fn residuals_fit(values: Seq<int>, sigmas: Seq<int>, mean: int, n: nat) -> bool {
    forall|i: int|
        0 <= i < n ==> wide_fits(#[trigger] wide_residual(values[i], sigmas[i], mean))
            && wide_fits(residual_sum(values, sigmas, mean, (i + 1) as nat))
}

/// The uncertainty of the mean by the weighted residuals: the square root of
/// the sum of the squared residuals, each times its uncertainty, over the
/// sum of the uncertainties. Only the quotient and the root are rounded.
pub open spec fn residual_spread(values: Seq<int>, sigmas: Seq<int>, mean: int) -> Result<
    int,
    XdsError,
> {
    let n = values.len();
    let num = residual_sum(values, sigmas, mean, n);
    let den = sigma_sum(sigmas, n);
    if !residuals_fit(values, sigmas, mean, n) {
        Err(XdsError::OutOfRange)
    } else if den == 0 || floor_quot(num, den) < 0 {
        Err(XdsError::DegenerateGeometry)
    } else {
        checked(isqrt(floor_quot(num, den)))
    }
}

/// The weight of a value by its residual: one minus the squared residual
/// over the square of the mean. It is negative where the value lies further
/// from the mean than the mean from zero.
pub open spec fn residual_weight(v: int, mean: int) -> int {
    ONE - qdiv(squared_residual(v, mean), qmul(mean, mean))
}

/// The sum of the first `n` residual weights.
pub open spec fn residual_weight_sum(values: Seq<int>, mean: int, n: nat) -> int
    decreases n,
{
    if n == 0 {
        0
    } else {
        residual_weight_sum(values, mean, (n - 1) as nat) + residual_weight(values[n - 1], mean)
    }
}

/// The sum of the first `n` uncertainties, each times the residual weight of
/// its value.
pub open spec fn weighted_sigma_sum(values: Seq<int>, sigmas: Seq<int>, mean: int, n: nat) -> int
    decreases n,
{
    if n == 0 {
        0
    } else {
        weighted_sigma_sum(values, sigmas, mean, (n - 1) as nat) + qmul(
            residual_weight(values[n - 1], mean),
            sigmas[n - 1],
        )
    }
}

/// Each of the first `n` squared residuals and residual weights fits, and
/// so does each weight times its uncertainty.
pub open spec fn residual_weights_fit(values: Seq<int>, sigmas: Seq<int>, mean: int, n: nat) -> bool {
    forall|i: int|
        0 <= i < n ==> fits(#[trigger] squared_residual(values[i], mean)) && fits(
            residual_weight(values[i], mean),
        ) && fits(qmul(residual_weight(values[i], mean), sigmas[i]))
}

/// The uncertainty of the mean by the residual weights: the sum of the
/// uncertainties, each times its value's residual weight, over the sum of
/// those weights. A mean whose square rounds to zero gives no weights.
pub open spec fn bounded_spread(values: Seq<int>, sigmas: Seq<int>, mean: int) -> Result<
    int,
    XdsError,
> {
    let n = values.len();
    let num = weighted_sigma_sum(values, sigmas, mean, n);
    let den = residual_weight_sum(values, mean, n);
    if !fits(qmul(mean, mean)) {
        Err(XdsError::OutOfRange)
    } else if qmul(mean, mean) == 0 {
        Err(XdsError::DegenerateGeometry)
    } else if !residual_weights_fit(values, sigmas, mean, n) || !fits(num) || !fits(den) {
        Err(XdsError::OutOfRange)
    } else if den == 0 {
        Err(XdsError::DegenerateGeometry)
    } else if !fits(qdiv(num, den)) {
        Err(XdsError::OutOfRange)
    } else {
        Ok(qdiv(num, den))
    }
}

/// The uncertainty that goes with the mean under a policy.
pub open spec fn spread(policy: UncertaintyPolicy, values: Seq<int>, sigmas: Seq<int>, mean: int) -> Result<
    int,
    XdsError,
> {
    match policy {
        UncertaintyPolicy::VarianceWeightedResidual => residual_spread(values, sigmas, mean),
        UncertaintyPolicy::BoundedResidualWeight => bounded_spread(values, sigmas, mean),
    }
}

/// The weighted mean of the values and its uncertainty. A first
/// uncertainty of zero marks the first value as fixed: it is the result,
/// with uncertainty zero, whatever else the lists hold.
pub open spec fn weighted_estimate(values: Seq<int>, sigmas: Seq<int>, policy: UncertaintyPolicy) -> Result<
    (int, int),
    XdsError,
> {
    if values.len() == 0 || values.len() != sigmas.len() {
        Err(XdsError::InsufficientData)
    } else if sigmas[0] == 0 {
        Ok((values[0], 0))
    } else {
        match weighted_mean(values, sigmas) {
            Err(e) => Err(e),
            Ok(mean) => match spread(policy, values, sigmas, mean) {
                Err(e) => Err(e),
                Ok(s) => Ok((mean, s)),
            },
        }
    }
}

/// What a fallible estimate holds: the mean and its uncertainty.
pub open spec fn estimate_of(r: Result<(Fixed, Fixed), XdsError>) -> Result<(int, int), XdsError> {
    match r {
        Ok(p) => Ok((p.0@, p.1@)),
        Err(e) => Err(e),
    }
}

/// The quotient of two sums, where the divisor is not zero.
fn quotient(num: &Fixed, den: &Fixed) -> (r: Result<Fixed, XdsError>)
    requires
        den@ != 0,
    ensures
        crate::fixed::value_of(r) == crate::fixed::checked(qdiv(num@, den@)),
{
    num.div(den)
}

/// One more term on a sum of terms that fit.
proof fn lemma_within_step(i: usize)
    ensures
        (i + 1) * LIMIT == i * LIMIT + LIMIT,
        0 <= i * LIMIT <= 0xffff_ffff_ffff_ffff * LIMIT,
{
    assert((i + 1) * LIMIT == i * LIMIT + LIMIT && 0 <= i * LIMIT <= 0xffff_ffff_ffff_ffff * LIMIT)
        by (nonlinear_arith)
        requires
            0 <= i <= 0xffff_ffff_ffff_ffff,
            LIMIT == 1_000_000_000_000_000_000,
    ;
}

/// The square of the distance of `v` from `mean`, where it fits.
fn squared_residual_of(v: &Fixed, mean: &Fixed) -> (r: Result<Fixed, XdsError>)
    ensures
        crate::fixed::value_of(r) == crate::fixed::checked(squared_residual(v@, mean@)),
{
    let d: i128 = v.raw() as i128 - mean.raw() as i128;
    assert(0 <= d * d <= 4_000_000_000_000_000_000_000_000_000_000_000_000) by (nonlinear_arith)
        requires
            -2_000_000_000_000_000_000 <= d <= 2_000_000_000_000_000_000,
    ;
    narrow(floor_div(d * d, 1_000_000_000))
}

/// The squared residual of `v` times its uncertainty, where it stays within
/// the limit.
fn wide_residual_of(v: &Fixed, sigma: &Fixed, mean: &Fixed) -> (r: Option<i128>)
    ensures
        r is Some <==> wide_fits(wide_residual(v@, sigma@, mean@)),
        r is Some ==> r.unwrap() == wide_residual(v@, sigma@, mean@),
{
    let d: i128 = v.raw() as i128 - mean.raw() as i128;
    assert(0 <= d * d <= 4_000_000_000_000_000_000_000_000_000_000_000_000) by (nonlinear_arith)
        requires
            -2_000_000_000_000_000_000 <= d <= 2_000_000_000_000_000_000,
    ;
    let square: i128 = d * d;
    let s: i128 = sigma.raw() as i128;
    if s == 0 {
        assert(wide_residual(v@, sigma@, mean@) == 0) by (nonlinear_arith)
            requires
                sigma@ == 0,
                wide_residual(v@, sigma@, mean@) == sigma@ * ((v@ - mean@) * (v@ - mean@)),
        ;
        return Some(0);
    }
    let m: i128 = if s > 0 {
        s
    } else {
        -s
    };
    let cap: i128 = WIDE_LIMIT / m;
    proof {
        lemma_fundamental_div_mod(WIDE_LIMIT as int, m as int);
        let rest = (WIDE_LIMIT as int) % (m as int);
        if square > cap {
            assert(m * square > WIDE_LIMIT) by (nonlinear_arith)
                requires
                    WIDE_LIMIT == m * cap + rest,
                    0 <= rest < m,
                    square >= cap + 1,
            ;
        } else {
            assert(0 <= m * square <= WIDE_LIMIT) by (nonlinear_arith)
                requires
                    WIDE_LIMIT == m * cap + rest,
                    0 <= rest < m,
                    0 <= square <= cap,
            ;
        }
        assert(wide_residual(v@, sigma@, mean@) == s * square);
        if s < 0 {
            assert(s * square == -(m * square)) by (nonlinear_arith)
                requires
                    m == -s,
            ;
        }
    }
    if square > cap {
        None
    } else {
        let p: i128 = m * square;
        if s > 0 {
            Some(p)
        } else {
            Some(-p)
        }
    }
}

/// The uncertainty of `mean` by the weighted residuals.
fn residual_spread_of(vals: &Vec<Fixed>, sigmas: &Vec<Fixed>, mean: &Fixed) -> (r: Result<
    Fixed,
    XdsError,
>)
    requires
        vals.len() == sigmas.len(),
    ensures
        crate::fixed::value_of(r) == residual_spread(raws(vals@), raws(sigmas@), mean@),
{
    let ghost values = raws(vals@);
    let ghost sig = raws(sigmas@);
    let n = vals.len();
    let mut num: i128 = 0;
    let mut den: i128 = 0;
    let mut i: usize = 0;
    while i < n
        invariant
            i <= n,
            n == vals.len(),
            n == sigmas.len(),
            values == raws(vals@),
            sig == raws(sigmas@),
            residuals_fit(values, sig, mean@, i as nat),
            num == residual_sum(values, sig, mean@, i as nat),
            den == sigma_sum(sig, i as nat),
            wide_fits(num as int),
            within(den as int, i as nat),
        decreases n - i,
    {
        assert(sig[i as int] == sigmas[i as int]@ && values[i as int] == vals[i as int]@);
        let term = match wide_residual_of(&vals[i], &sigmas[i], mean) {
            Some(t) => t,
            None => {
                assert(!wide_fits(wide_residual(values[i as int], sig[i as int], mean@)));
                return Err(XdsError::OutOfRange);
            },
        };
        let next = num + term;
        if next < -WIDE_LIMIT || next > WIDE_LIMIT {
            assert(!wide_fits(residual_sum(values, sig, mean@, (i + 1) as nat)));
            assert(wide_fits(wide_residual(values[i as int], sig[i as int], mean@)));
            return Err(XdsError::OutOfRange);
        }
        proof {
            lemma_within_step(i);
        }
        num = next;
        den = den + sigmas[i].raw() as i128;
        i = i + 1;
    }
    if den == 0 {
        return Err(XdsError::DegenerateGeometry);
    }
    let q = if den > 0 {
        floor_div(num, den)
    } else {
        floor_div(-num, -den)
    };
    if q < 0 {
        return Err(XdsError::DegenerateGeometry);
    }
    narrow(integer_sqrt(q as u128) as i128)
}

/// A quotient by a positive divisor is no larger than what is divided.
proof fn lemma_quotient_within(n: int, d: int, bound: int)
    requires
        d > 0,
        -bound <= n <= bound,
    ensures
        -bound <= n / d <= bound,
{
    vstd::arithmetic::div_mod::lemma_fundamental_div_mod(n, d);
    let q = n / d;
    let r = n % d;
    assert(-bound <= q <= bound) by (nonlinear_arith)
        requires
            n == d * q + r,
            0 <= r < d,
            -bound <= n <= bound,
            d > 0,
    ;
}

/// The residual weight of `v`, where it fits; the square of the mean is not
/// zero.
fn residual_weight_of(v: &Fixed, mean: &Fixed, mean_squared: &Fixed) -> (r: Result<Fixed, XdsError>)
    requires
        mean_squared@ == qmul(mean@, mean@),
        mean_squared@ != 0,
    ensures
        r is Ok <==> fits(squared_residual(v@, mean@)) && fits(residual_weight(v@, mean@)),
        r is Ok ==> r.unwrap()@ == residual_weight(v@, mean@),
        r is Err ==> r.unwrap_err() == XdsError::OutOfRange,
{
    let sq = squared_residual_of(v, mean)?;
    let n: i128 = (sq.raw() as i128) * 1_000_000_000;
    let m = mean_squared.raw();
    let q = if m > 0 {
        floor_div(n, m as i128)
    } else {
        floor_div(-n, -(m as i128))
    };
    proof {
        if m > 0 {
            lemma_quotient_within(n as int, m as int, 1_000_000_000_000_000_000_000_000_000);
        } else {
            lemma_quotient_within(-n as int, -(m as int), 1_000_000_000_000_000_000_000_000_000);
        }
    }
    narrow(1_000_000_000 - q)
}

/// The uncertainty of `mean` by the residual weights.
fn bounded_spread_of(vals: &Vec<Fixed>, sigmas: &Vec<Fixed>, mean: &Fixed) -> (r: Result<
    Fixed,
    XdsError,
>)
    requires
        vals.len() == sigmas.len(),
    ensures
        crate::fixed::value_of(r) == bounded_spread(raws(vals@), raws(sigmas@), mean@),
{
    let ghost values = raws(vals@);
    let ghost sig = raws(sigmas@);
    let n = vals.len();
    let m2 = floor_div(wide_product(mean.raw(), mean.raw()), 1_000_000_000);
    let mean_squared = narrow(m2)?;
    if mean_squared.is_zero() {
        return Err(XdsError::DegenerateGeometry);
    }
    let mut num: i128 = 0;
    let mut den: i128 = 0;
    let mut i: usize = 0;
    while i < n
        invariant
            i <= n,
            n == vals.len(),
            n == sigmas.len(),
            values == raws(vals@),
            sig == raws(sigmas@),
            mean_squared@ == qmul(mean@, mean@),
            mean_squared@ != 0,
            residual_weights_fit(values, sig, mean@, i as nat),
            num == weighted_sigma_sum(values, sig, mean@, i as nat),
            den == residual_weight_sum(values, mean@, i as nat),
            within(num as int, i as nat),
            within(den as int, i as nat),
        decreases n - i,
    {
        assert(sig[i as int] == sigmas[i as int]@ && values[i as int] == vals[i as int]@);
        let w = match residual_weight_of(&vals[i], mean, &mean_squared) {
            Ok(f) => f,
            Err(_) => {
                assert(!(fits(squared_residual(values[i as int], mean@)) && fits(
                    residual_weight(values[i as int], mean@),
                )));
                return Err(XdsError::OutOfRange);
            },
        };
        let term = match w.mul(&sigmas[i]) {
            Ok(f) => f,
            Err(_) => {
                assert(!fits(qmul(residual_weight(values[i as int], mean@), sig[i as int])));
                return Err(XdsError::OutOfRange);
            },
        };
        proof {
            lemma_within_step(i);
        }
        num = num + term.raw() as i128;
        den = den + w.raw() as i128;
        i = i + 1;
    }
    let num_f = narrow(num)?;
    let den_f = narrow(den)?;
    if den_f.is_zero() {
        return Err(XdsError::DegenerateGeometry);
    }
    quotient(&num_f, &den_f)
}

/// The weighted mean of `vals` and its uncertainty under `policy`. Each
/// value is weighted with one over the square of its uncertainty; a first
/// uncertainty of zero marks the first value as fixed.
pub fn wmean(vals: &Vec<Fixed>, sigmas: &Vec<Fixed>, policy: UncertaintyPolicy) -> (r: Result<
    (Fixed, Fixed),
    XdsError,
>)
    ensures
        estimate_of(r) == weighted_estimate(raws(vals@), raws(sigmas@), policy),
{
    if vals.len() == 0 || vals.len() != sigmas.len() {
        return Err(XdsError::InsufficientData);
    }
    assert(raws(sigmas@)[0] == sigmas[0]@ && raws(vals@)[0] == vals[0]@);
    if sigmas[0].is_zero() {
        return Ok((vals[0], Fixed::zero()));
    }
    let mean = weighted_mean_of(vals, sigmas)?;
    let s = match policy {
        UncertaintyPolicy::VarianceWeightedResidual => residual_spread_of(vals, sigmas, &mean)?,
        UncertaintyPolicy::BoundedResidualWeight => bounded_spread_of(vals, sigmas, &mean)?,
    };
    Ok((mean, s))
}

/// A first uncertainty of zero fixes the result to the first value, with
/// uncertainty zero, whatever the other values and uncertainties are and
/// whichever policy is asked for.
pub proof fn lemma_constraint_marker(values: Seq<int>, sigmas: Seq<int>, policy: UncertaintyPolicy)
    requires
        values.len() > 0,
        values.len() == sigmas.len(),
        sigmas[0] == 0,
    ensures
        weighted_estimate(values, sigmas, policy) == Ok::<(int, int), XdsError>((values[0], 0)),
{
}

/// The uncertainty one, `n` times over.
pub open spec fn uniform(n: nat) -> Seq<int> {
    Seq::new(n, |i: int| ONE as int)
}

/// The sum of the first `n` values.
pub open spec fn value_sum(values: Seq<int>, n: nat) -> int
    decreases n,
{
    if n == 0 {
        0
    } else {
        value_sum(values, (n - 1) as nat) + values[n - 1]
    }
}

/// With the uncertainty one throughout, every weight is one, the weights
/// add up to the number of values, and the weighted sum is the plain sum.
proof fn lemma_uniform_sums(values: Seq<int>, n: nat)
    requires
        n <= values.len(),
    ensures
        weight(ONE as int) == ONE,
        weight_sum(uniform(values.len()), n) == n * ONE,
        weighted_sum(values, uniform(values.len()), n) == value_sum(values, n),
    decreases n,
{
    assert(weight(ONE as int) == ONE) by (nonlinear_arith)
        requires
            weight(ONE as int) == (ONE * ONE * ONE) / (ONE * ONE),
            ONE == 1_000_000_000,
    ;
    if n > 0 {
        lemma_uniform_sums(values, (n - 1) as nat);
        let v = values[n - 1];
        assert(qmul(v, ONE as int) == v) by {
            assert((v * ONE) / (ONE as int) == v);
        }
        assert(n * ONE == (n - 1) * ONE + ONE) by (nonlinear_arith);
    }
}

/// With the uncertainty one for every value the weighted mean is the plain
/// mean: the sum of the values over their number. This holds for values
/// whose sum fits, and for no more values than a thousand million.
pub proof fn lemma_uniform_mean(values: Seq<int>)
    requires
        0 < values.len() <= ONE,
        forall|i: int| 0 <= i < values.len() ==> fits(#[trigger] values[i]),
        fits(value_sum(values, values.len())),
    ensures
        weighted_mean(values, uniform(values.len())) == checked(
            qdiv(value_sum(values, values.len()), values.len() * ONE),
        ),
{
    let n = values.len();
    let sigmas = uniform(n);
    lemma_uniform_sums(values, n);
    assert(n * ONE <= ONE * ONE && n * ONE > 0) by (nonlinear_arith)
        requires
            0 < n <= ONE,
            ONE == 1_000_000_000,
    ;
    assert(ONE * ONE == LIMIT) by (nonlinear_arith)
        requires
            ONE == 1_000_000_000,
            LIMIT == 1_000_000_000_000_000_000,
    ;
    assert forall|i: int| 0 <= i < n implies fits(#[trigger] weight(sigmas[i])) && fits(
        qmul(values[i], weight(sigmas[i])),
    ) by {
        assert((values[i] * ONE) / (ONE as int) == values[i]);
    }
}

/// The weight of an uncertainty that is not zero is not negative.
proof fn lemma_weight_not_negative(sigma: int)
    requires
        sigma != 0,
    ensures
        weight(sigma) >= 0,
{
    assert(weight(sigma) >= 0) by (nonlinear_arith)
        requires
            sigma != 0,
            weight(sigma) == (ONE * ONE * ONE) / (sigma * sigma),
            ONE == 1_000_000_000,
    ;
}

/// One value between `lo` and `hi`, times a weight that is not negative and
/// rounded down, lies between `lo` times the weight, less one, and `hi`
/// times the weight.
proof fn lemma_weighted_term(v: int, w: int, lo: int, hi: int)
    requires
        lo <= v <= hi,
        0 <= w,
    ensures
        lo * w - ONE < ONE * qmul(v, w) <= hi * w,
{
    vstd::arithmetic::div_mod::lemma_fundamental_div_mod(v * w, ONE as int);
    assert(lo * w <= v * w <= hi * w) by (nonlinear_arith)
        requires
            lo <= v <= hi,
            0 <= w,
    ;
}

/// The weighted sum of values between `lo` and `hi`, times one, lies
/// between `lo` times the sum of the weights, less one for each value, and
/// `hi` times the sum of the weights.
proof fn lemma_weighted_sum_within(values: Seq<int>, sigmas: Seq<int>, n: nat, lo: int, hi: int)
    requires
        n <= values.len(),
        n <= sigmas.len(),
        no_zero_sigma(sigmas, n),
        forall|i: int| 0 <= i < n ==> lo <= #[trigger] values[i] <= hi,
    ensures
        lo * weight_sum(sigmas, n) - n * ONE <= ONE * weighted_sum(values, sigmas, n),
        ONE * weighted_sum(values, sigmas, n) <= hi * weight_sum(sigmas, n),
        weight_sum(sigmas, n) >= 0,
    decreases n,
{
    if n > 0 {
        let m = (n - 1) as nat;
        lemma_weighted_sum_within(values, sigmas, m, lo, hi);
        let w = weight(sigmas[n - 1]);
        lemma_weight_not_negative(sigmas[n - 1]);
        lemma_weighted_term(values[n - 1], w, lo, hi);
        let before = weight_sum(sigmas, m);
        assert(lo * (before + w) == lo * before + lo * w && hi * (before + w) == hi * before + hi
            * w) by (nonlinear_arith);
        assert(n * ONE == m * ONE + ONE) by (nonlinear_arith)
            requires
                n == m + 1,
        ;
    }
}

/// The weighted mean lies between the values: it is no larger than the
/// largest of them, and falls below the smallest by no more than rounding
/// takes: times the sum of the weights, by less than that sum and one for
/// each value.
pub proof fn lemma_mean_between_values(values: Seq<int>, sigmas: Seq<int>, lo: int, hi: int)
    requires
        weighted_mean(values, sigmas) is Ok,
        forall|i: int| 0 <= i < values.len() ==> lo <= #[trigger] values[i] <= hi,
    ensures
        weighted_mean(values, sigmas).unwrap() <= hi,
        (lo - weighted_mean(values, sigmas).unwrap()) * weight_sum(sigmas, values.len())
            < weight_sum(sigmas, values.len()) + values.len() * ONE,
{
    let n = values.len();
    let total = weight_sum(sigmas, n);
    let sum = weighted_sum(values, sigmas, n);
    let mean = weighted_mean(values, sigmas).unwrap();
    lemma_weighted_sum_within(values, sigmas, n, lo, hi);
    assert(total > 0);
    vstd::arithmetic::div_mod::lemma_fundamental_div_mod(sum * ONE, total);
    let r = (sum * ONE) % total;
    assert(mean == (sum * ONE) / total);
    assert(sum * ONE == total * mean + r);
    assert(mean <= hi) by (nonlinear_arith)
        requires
            sum * ONE == total * mean + r,
            0 <= r,
            ONE * sum <= hi * total,
            total > 0,
    ;
    assert((lo - mean) * total < total + n * ONE) by (nonlinear_arith)
        requires
            sum * ONE == total * mean + r,
            r < total,
            lo * total - n * ONE <= ONE * sum,
            total > 0,
    ;
}

} // verus!
