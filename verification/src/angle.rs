//! Angles, held as their cosine and sine.

use crate::fixed::{floor_div, integer_sqrt, isqrt, narrow, wide_product, Fixed, ONE};
use vstd::prelude::*;

verus! {

/// The cosine and the sine of an angle, as raw values.
pub struct AngleView {
    pub cosine: int,
    pub sine: int,
}

/// `x` brought into the range from minus one to one.
pub open spec fn clamp_unit(x: int) -> int {
    if x < -ONE {
        -(ONE as int)
    } else if x > ONE {
        ONE as int
    } else {
        x
    }
}

/// The sine, not negative, that belongs to the cosine `c`: the square root of
/// one minus the square of `c`, and zero where that difference is negative.
pub open spec fn sine_for(c: int) -> int {
    if ONE * ONE - c * c <= 0 {
        0
    } else {
        isqrt(ONE * ONE - c * c)
    }
}

/// The angle between zero and a half turn whose cosine is `c`; a `c` beyond
/// one or minus one gives the angle zero or the half turn.
pub open spec fn angle_from_cosine(c: int) -> AngleView {
    AngleView { cosine: clamp_unit(c), sine: sine_for(c) }
}

/// A cosine beyond one or minus one gives the same angle as one or minus
/// one itself.
pub proof fn lemma_clamped_cosine(c: int)
    ensures
        angle_from_cosine(clamp_unit(c)) == angle_from_cosine(c),
{
    if c > ONE {
        assert(ONE * ONE - c * c <= 0) by (nonlinear_arith)
            requires
                c > ONE,
                ONE == 1_000_000_000,
        ;
    }
    if c < -ONE {
        assert(ONE * ONE - c * c <= 0) by (nonlinear_arith)
            requires
                c < -ONE,
                ONE == 1_000_000_000,
        ;
    }
    assert(ONE * ONE - ONE * ONE <= 0 && ONE * ONE - (-ONE) * (-ONE) <= 0) by (nonlinear_arith);
}

impl AngleView {
    /// Cosine and sine both lie between minus one and one.
    pub open spec fn bounded(self) -> bool {
        -ONE <= self.cosine <= ONE && -ONE <= self.sine <= ONE
    }

    /// The angle turned the other way.
    pub open spec fn neg(self) -> AngleView {
        AngleView { cosine: self.cosine, sine: -self.sine }
    }

    /// The sum of two angles, by the addition theorems, each product sum
    /// rounded down once.
    pub open spec fn plus(self, o: AngleView) -> AngleView {
        AngleView {
            cosine: clamp_unit((self.cosine * o.cosine - self.sine * o.sine) / (ONE as int)),
            sine: clamp_unit((self.sine * o.cosine + self.cosine * o.sine) / (ONE as int)),
        }
    }

    /// The difference of two angles.
    pub open spec fn minus(self, o: AngleView) -> AngleView {
        self.plus(o.neg())
    }
}

/// An angle, held as its cosine and sine; both lie between minus one and one.
#[derive(Clone, Copy, Debug)]
pub struct Angle {
    cosine: Fixed,
    sine: Fixed,
}

impl View for Angle {
    type V = AngleView;

    closed spec fn view(&self) -> AngleView {
        AngleView { cosine: self.cosine@, sine: self.sine@ }
    }
}

/// The raw value `x` brought into the range from minus one to one.
pub(crate) fn clamp_to_unit(x: i128) -> (r: Fixed)
    ensures
        r@ == clamp_unit(x as int),
{
    if x < -1_000_000_000 {
        narrow(-1_000_000_000).unwrap()
    } else if x > 1_000_000_000 {
        narrow(1_000_000_000).unwrap()
    } else {
        narrow(x).unwrap()
    }
}

impl Angle {
    #[verifier::type_invariant]
    closed spec fn within_unit(self) -> bool {
        self@.bounded()
    }

    /// The angle with the given cosine and sine, where both lie between
    /// minus one and one.
    pub fn new(cosine: Fixed, sine: Fixed) -> (r: Option<Angle>)
        ensures
            r is Some <==> (AngleView { cosine: cosine@, sine: sine@ }).bounded(),
            r is Some ==> r.unwrap()@ == (AngleView { cosine: cosine@, sine: sine@ }),
    {
        if -ONE <= cosine.raw() && cosine.raw() <= ONE && -ONE <= sine.raw() && sine.raw() <= ONE {
            Some(Angle { cosine, sine })
        } else {
            None
        }
    }

    /// The angle zero.
    pub fn zero() -> (r: Angle)
        ensures
            r@ == (AngleView { cosine: ONE as int, sine: 0 }),
    {
        Angle { cosine: Fixed::one(), sine: Fixed::zero() }
    }

    /// The angle between zero and a half turn with the given cosine.
    pub fn from_cosine(c: &Fixed) -> (r: Angle)
        ensures
            r@ == angle_from_cosine(c@),
    {
        let raw = c.raw();
        if raw >= ONE {
            assert(ONE * ONE - raw * raw <= 0) by (nonlinear_arith)
                requires
                    raw >= ONE,
                    ONE == 1_000_000_000,
            ;
            Angle { cosine: Fixed::one(), sine: Fixed::zero() }
        } else if raw <= -ONE {
            assert(ONE * ONE - raw * raw <= 0) by (nonlinear_arith)
                requires
                    raw <= -ONE,
                    ONE == 1_000_000_000,
            ;
            Angle { cosine: Fixed::one().neg(), sine: Fixed::zero() }
        } else {
            assert(0 < ONE * ONE - raw * raw <= ONE * ONE) by (nonlinear_arith)
                requires
                    -ONE < raw < ONE,
                    ONE == 1_000_000_000,
            ;
            let d: i128 = 1_000_000_000_000_000_000 - wide_product(raw, raw);
            let root = integer_sqrt(d as u128);
            assert(root <= ONE) by (nonlinear_arith)
                requires
                    root * root <= d,
                    d <= ONE * ONE,
                    0 <= root,
                    ONE == 1_000_000_000,
            ;
            Angle { cosine: *c, sine: narrow(root as i128).unwrap() }
        }
    }

    /// The cosine.
    pub fn cosine(&self) -> (r: Fixed)
        ensures
            r@ == self@.cosine,
            -ONE <= r@ <= ONE,
    {
        proof {
            use_type_invariant(self);
        }
        self.cosine
    }

    /// The sine.
    pub fn sine(&self) -> (r: Fixed)
        ensures
            r@ == self@.sine,
            -ONE <= r@ <= ONE,
    {
        proof {
            use_type_invariant(self);
        }
        self.sine
    }

    /// The angle turned the other way.
    pub fn neg(&self) -> (r: Angle)
        ensures
            r@ == self@.neg(),
    {
        proof {
            use_type_invariant(self);
        }
        Angle { cosine: self.cosine, sine: self.sine.neg() }
    }

    /// The sum of two angles.
    pub fn plus(&self, other: &Angle) -> (r: Angle)
        ensures
            r@ == self@.plus(other@),
    {
        let ca = self.cosine.raw();
        let sa = self.sine.raw();
        let cb = other.cosine.raw();
        let sb = other.sine.raw();
        let c = wide_product(ca, cb) - wide_product(sa, sb);
        let s = wide_product(sa, cb) + wide_product(ca, sb);
        Angle {
            cosine: clamp_to_unit(floor_div(c, 1_000_000_000)),
            sine: clamp_to_unit(floor_div(s, 1_000_000_000)),
        }
    }

    /// The difference of two angles.
    pub fn minus(&self, other: &Angle) -> (r: Angle)
        ensures
            r@ == self@.minus(other@),
    {
        self.plus(&other.neg())
    }
}

/// The angle that belongs to a cosine lies on the unit circle, up to the
/// rounding of its sine: the squares of cosine and sine add up to no more
/// than one, and to more than one once the sine is raised by the smallest
/// step. Cosine and sine lie between minus one and one, and the sine is not
/// negative.
pub proof fn lemma_angle_on_circle(c: int)
    ensures
        ({
            let a = angle_from_cosine(c);
            &&& a.bounded()
            &&& 0 <= a.sine
            &&& a.cosine * a.cosine + a.sine * a.sine <= ONE * ONE
            &&& ONE * ONE < a.cosine * a.cosine + (a.sine + 1) * (a.sine + 1)
        }),
{
    let a = angle_from_cosine(c);
    assert(ONE * ONE == 1_000_000_000_000_000_000int) by (nonlinear_arith)
        requires
            ONE == 1_000_000_000,
    ;
    if ONE * ONE - c * c <= 0 {
        assert(c >= ONE || c <= -ONE) by (nonlinear_arith)
            requires
                ONE * ONE - c * c <= 0,
                ONE == 1_000_000_000,
        ;
        assert(a.cosine * a.cosine == ONE * ONE) by (nonlinear_arith)
            requires
                a.cosine == ONE || a.cosine == -ONE,
        ;
        assert(a.sine * a.sine == 0 && (a.sine + 1) * (a.sine + 1) == 1) by (nonlinear_arith)
            requires
                a.sine == 0,
        ;
    } else {
        assert(-ONE < c < ONE) by (nonlinear_arith)
            requires
                ONE * ONE - c * c > 0,
                ONE == 1_000_000_000,
        ;
        crate::fixed::lemma_isqrt_exists(ONE * ONE - c * c);
        let s = a.sine;
        assert(s <= ONE) by (nonlinear_arith)
            requires
                0 <= s,
                s * s <= ONE * ONE - c * c,
                ONE == 1_000_000_000,
        ;
    }
}

} // verus!
