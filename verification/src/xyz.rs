//! Vectors in three dimensions.

use crate::angle::{angle_from_cosine, Angle, AngleView};
use crate::error::XdsError;
use crate::fixed::{
    checked, fits, floor_div, integer_sqrt, is_isqrt, isqrt, lemma_isqrt_exists, narrow, qdiv,
    qmul, value_of, wide_product, Fixed, ONE,
};
use vstd::prelude::*;

verus! {

/// Three raw values: what a vector holds.
pub struct V3 {
    pub x: int,
    pub y: int,
    pub z: int,
}

impl V3 {
    /// Each component is a raw value that a `Fixed` can hold.
    pub open spec fn fits(self) -> bool {
        fits(self.x) && fits(self.y) && fits(self.z)
    }

    /// The sum, component by component.
    pub open spec fn plus(self, o: V3) -> V3 {
        V3 { x: self.x + o.x, y: self.y + o.y, z: self.z + o.z }
    }

    /// The difference, component by component.
    pub open spec fn minus(self, o: V3) -> V3 {
        V3 { x: self.x - o.x, y: self.y - o.y, z: self.z - o.z }
    }

    /// The vector taken `n` times.
    pub open spec fn times(self, n: int) -> V3 {
        V3 { x: self.x * n, y: self.y * n, z: self.z * n }
    }

    /// Each component divided by `d` and rounded down, for `d > 0`.
    pub open spec fn over(self, d: int) -> V3 {
        V3 { x: self.x / d, y: self.y / d, z: self.z / d }
    }

    /// The scalar product before it is brought back to nine places.
    pub open spec fn dot_wide(self, o: V3) -> int {
        self.x * o.x + self.y * o.y + self.z * o.z
    }

    /// The vector product before it is brought back to nine places.
    pub open spec fn cross_wide(self, o: V3) -> V3 {
        V3 {
            x: self.y * o.z - self.z * o.y,
            y: self.z * o.x - self.x * o.z,
            z: self.x * o.y - self.y * o.x,
        }
    }

    /// The scalar product, rounded down once.
    pub open spec fn dot(self, o: V3) -> int {
        self.dot_wide(o) / (ONE as int)
    }

    /// The vector product, each component rounded down once.
    pub open spec fn cross(self, o: V3) -> V3 {
        self.cross_wide(o).over(ONE as int)
    }

    /// The vector scaled by the raw factor `s`, each component rounded down.
    pub open spec fn scaled(self, s: int) -> V3 {
        V3 { x: qmul(s, self.x), y: qmul(s, self.y), z: qmul(s, self.z) }
    }

    /// The vector divided by the raw divisor `d`, for `d != 0`.
    pub open spec fn divided(self, d: int) -> V3 {
        V3 { x: qdiv(self.x, d), y: qdiv(self.y, d), z: qdiv(self.z, d) }
    }

    /// The length, rounded down.
    pub open spec fn norm(self) -> int {
        isqrt(self.dot_wide(self))
    }

    /// The vector of length one in the same direction, for a vector that has
    /// a length.
    pub open spec fn unit(self) -> V3 {
        self.divided(self.norm())
    }
}

/// The vector where every component fits, the range error where not.
pub open spec fn checked_v3(v: V3) -> Result<V3, XdsError> {
    if v.fits() {
        Ok(v)
    } else {
        Err(XdsError::OutOfRange)
    }
}

/// The vector divided by `d` where `d` is not zero and the result fits.
pub open spec fn checked_divided(v: V3, d: int) -> Result<V3, XdsError> {
    if d == 0 {
        Err(XdsError::DegenerateGeometry)
    } else {
        checked_v3(v.divided(d))
    }
}

/// A vector of three fixed-point components.
#[derive(Clone, Copy, Debug)]
pub struct XYZ {
    x: Fixed,
    y: Fixed,
    z: Fixed,
}

impl View for XYZ {
    type V = V3;

    closed spec fn view(&self) -> V3 {
        V3 { x: self.x@, y: self.y@, z: self.z@ }
    }
}

/// What a fallible vector result holds.
pub open spec fn v3_of(r: Result<XYZ, XdsError>) -> Result<V3, XdsError> {
    match r {
        Ok(v) => Ok(v@),
        Err(e) => Err(e),
    }
}

/// The sum of three products of raw values.
fn sum_of_products(a0: i64, b0: i64, a1: i64, b1: i64, a2: i64, b2: i64) -> (s: i128)
    requires
        fits(a0 as int),
        fits(b0 as int),
        fits(a1 as int),
        fits(b1 as int),
        fits(a2 as int),
        fits(b2 as int),
    ensures
        s == a0 * b0 + a1 * b1 + a2 * b2,
        -3_000_000_000_000_000_000_000_000_000_000_000_000 <= s
            <= 3_000_000_000_000_000_000_000_000_000_000_000_000,
{
    wide_product(a0, b0) + wide_product(a1, b1) + wide_product(a2, b2)
}

/// The vector made of three raw values, where each fits.
fn narrow_v3(x: i128, y: i128, z: i128) -> (r: Result<XYZ, XdsError>)
    ensures
        v3_of(r) == checked_v3(V3 { x: x as int, y: y as int, z: z as int }),
{
    let fx = narrow(x)?;
    let fy = narrow(y)?;
    let fz = narrow(z)?;
    Ok(XYZ { x: fx, y: fy, z: fz })
}

impl XYZ {
    /// The vector with the given components.
    pub fn new(x: Fixed, y: Fixed, z: Fixed) -> (r: XYZ)
        ensures
            r@ == (V3 { x: x@, y: y@, z: z@ }),
    {
        XYZ { x, y, z }
    }

    /// The first component.
    pub fn x(&self) -> (r: Fixed)
        ensures
            r@ == self@.x,
    {
        self.x
    }

    /// The second component.
    pub fn y(&self) -> (r: Fixed)
        ensures
            r@ == self@.y,
    {
        self.y
    }

    /// The third component.
    pub fn z(&self) -> (r: Fixed)
        ensures
            r@ == self@.z,
    {
        self.z
    }

    /// The sum of two vectors.
    pub fn add(&self, other: &XYZ) -> (r: Result<XYZ, XdsError>)
        ensures
            v3_of(r) == checked_v3(self@.plus(other@)),
    {
        narrow_v3(
            self.x.raw() as i128 + other.x.raw() as i128,
            self.y.raw() as i128 + other.y.raw() as i128,
            self.z.raw() as i128 + other.z.raw() as i128,
        )
    }

    /// The difference of two vectors.
    pub fn sub(&self, other: &XYZ) -> (r: Result<XYZ, XdsError>)
        ensures
            v3_of(r) == checked_v3(self@.minus(other@)),
    {
        narrow_v3(
            self.x.raw() as i128 - other.x.raw() as i128,
            self.y.raw() as i128 - other.y.raw() as i128,
            self.z.raw() as i128 - other.z.raw() as i128,
        )
    }

    /// The scalar product.
    pub fn dot(&self, other: &XYZ) -> (r: Result<Fixed, XdsError>)
        ensures
            value_of(r) == checked(self@.dot(other@)),
    {
        let s = sum_of_products(
            self.x.raw(),
            other.x.raw(),
            self.y.raw(),
            other.y.raw(),
            self.z.raw(),
            other.z.raw(),
        );
        narrow(floor_div(s, 1_000_000_000))
    }

    /// The vector product.
    pub fn cross(&self, other: &XYZ) -> (r: Result<XYZ, XdsError>)
        ensures
            v3_of(r) == checked_v3(self@.cross(other@)),
    {
        let cx = wide_product(self.y.raw(), other.z.raw()) - wide_product(
            self.z.raw(),
            other.y.raw(),
        );
        let cy = wide_product(self.z.raw(), other.x.raw()) - wide_product(
            self.x.raw(),
            other.z.raw(),
        );
        let cz = wide_product(self.x.raw(), other.y.raw()) - wide_product(
            self.y.raw(),
            other.x.raw(),
        );
        narrow_v3(
            floor_div(cx, 1_000_000_000),
            floor_div(cy, 1_000_000_000),
            floor_div(cz, 1_000_000_000),
        )
    }

    /// The vector scaled by a number.
    pub fn scale(&self, s: &Fixed) -> (r: Result<XYZ, XdsError>)
        ensures
            v3_of(r) == checked_v3(self@.scaled(s@)),
    {
        narrow_v3(
            floor_div(wide_product(s.raw(), self.x.raw()), 1_000_000_000),
            floor_div(wide_product(s.raw(), self.y.raw()), 1_000_000_000),
            floor_div(wide_product(s.raw(), self.z.raw()), 1_000_000_000),
        )
    }

    /// The vector taken a whole number of times.
    pub fn times(&self, n: i32) -> (r: Result<XYZ, XdsError>)
        ensures
            v3_of(r) == checked_v3(self@.times(n as int)),
    {
        let m = Fixed::from_raw(n as i64);
        proof {
            assert(fits(n as int));
        }
        let m = m.unwrap();
        narrow_v3(
            wide_product(self.x.raw(), m.raw()),
            wide_product(self.y.raw(), m.raw()),
            wide_product(self.z.raw(), m.raw()),
        )
    }

    /// The vector divided by a number; a zero divisor is an error.
    pub fn div(&self, d: &Fixed) -> (r: Result<XYZ, XdsError>)
        ensures
            v3_of(r) == checked_divided(self@, d@),
    {
        if d.is_zero() {
            return Err(XdsError::DegenerateGeometry);
        }
        let x = self.x.div(d);
        let y = self.y.div(d);
        let z = self.z.div(d);
        Ok(XYZ { x: x?, y: y?, z: z? })
    }
}

/// The vector of length one along `v`, where `v` has a length.
pub open spec fn checked_direction(v: V3) -> Result<V3, XdsError> {
    if v.norm() == 0 {
        Err(XdsError::DegenerateGeometry)
    } else {
        Ok(v.unit())
    }
}

/// The vector of length one along `v` together with the length of `v`: an
/// error for a vector without length, and for a length that does not fit.
pub open spec fn checked_unit(v: V3) -> Result<(V3, int), XdsError> {
    if v.norm() == 0 {
        Err(XdsError::DegenerateGeometry)
    } else if !fits(v.norm()) {
        Err(XdsError::OutOfRange)
    } else {
        Ok((v.unit(), v.norm()))
    }
}

/// A vector is never longer along one axis than it is long.
pub proof fn lemma_component_within_norm(x: int, rest: int, n: int)
    by (nonlinear_arith)
    requires
        0 <= rest,
        0 <= n,
        n * n <= x * x + rest < (n + 1) * (n + 1),
    ensures
        -n <= x <= n,
{
    if x > n {
        assert(x * x >= (n + 1) * (n + 1));
    }
    if x < -n {
        assert(x * x >= (n + 1) * (n + 1));
    }
}

/// A quotient of something between `-d` and `d` times one lies between minus
/// one and one.
pub proof fn lemma_unit_quotient(x: int, d: int)
    requires
        d > 0,
        -d <= x <= d,
    ensures
        -ONE <= qdiv(x, d) <= ONE,
{
    let n = x * ONE;
    let q = n / d;
    let r = n % d;
    vstd::arithmetic::div_mod::lemma_fundamental_div_mod(n, d);
    assert(-ONE <= q <= ONE) by (nonlinear_arith)
        requires
            n == d * q + r,
            0 <= r < d,
            -d * 1_000_000_000 <= n <= d * 1_000_000_000,
            d > 0,
    ;
}

/// The square of the length lies within the sum of the squares.
pub proof fn lemma_norm_is_isqrt(v: V3)
    ensures
        is_isqrt(v.dot_wide(v), v.norm()),
{
    let s = v.dot_wide(v);
    assert(s >= 0) by (nonlinear_arith)
        requires
            s == v.x * v.x + v.y * v.y + v.z * v.z,
    ;
    lemma_isqrt_exists(s);
}

/// The components of a unit vector lie between minus one and one.
pub proof fn lemma_unit_fits(v: V3)
    requires
        v.norm() != 0,
    ensures
        -ONE <= v.unit().x <= ONE,
        -ONE <= v.unit().y <= ONE,
        -ONE <= v.unit().z <= ONE,
        v.unit().fits(),
{
    lemma_norm_is_isqrt(v);
    let n = v.norm();
    assert(v.y * v.y + v.z * v.z >= 0 && v.x * v.x + v.z * v.z >= 0 && v.x * v.x + v.y * v.y
        >= 0) by (nonlinear_arith);
    lemma_component_within_norm(v.x, v.y * v.y + v.z * v.z, n);
    lemma_component_within_norm(v.y, v.x * v.x + v.z * v.z, n);
    lemma_component_within_norm(v.z, v.x * v.x + v.y * v.y, n);
    lemma_unit_quotient(v.x, n);
    lemma_unit_quotient(v.y, n);
    lemma_unit_quotient(v.z, n);
}

/// One raw component of the unit vector: `x` over the length `n`.
fn unit_component(x: i64, n: i128) -> (q: i128)
    requires
        fits(x as int),
        n > 0,
    ensures
        q == qdiv(x as int, n as int),
{
    floor_div((x as i128) * 1_000_000_000, n)
}

impl XYZ {
    /// The sum of the squares of the components, and its integer square
    /// root: the length as a raw value.
    fn wide_norm(&self) -> (n: i128)
        ensures
            n == self@.norm(),
            0 <= n <= 2_000_000_000_000_000_000,
    {
        let s = sum_of_products(
            self.x.raw(),
            self.x.raw(),
            self.y.raw(),
            self.y.raw(),
            self.z.raw(),
            self.z.raw(),
        );
        assert(s >= 0) by (nonlinear_arith)
            requires
                s == self.x@ * self.x@ + self.y@ * self.y@ + self.z@ * self.z@,
        ;
        let root = integer_sqrt(s as u128);
        assert(root <= 2_000_000_000_000_000_000) by (nonlinear_arith)
            requires
                root * root <= s,
                s <= 3_000_000_000_000_000_000_000_000_000_000_000_000,
                root >= 0,
        ;
        root as i128
    }

    /// The vector along `self` with length one, for a vector that has a
    /// length.
    fn unit_of(&self, n: i128) -> (u: XYZ)
        requires
            n == self@.norm(),
            n > 0,
        ensures
            u@ == self@.unit(),
    {
        proof {
            lemma_unit_fits(self@);
        }
        let x = narrow(unit_component(self.x.raw(), n));
        let y = narrow(unit_component(self.y.raw(), n));
        let z = narrow(unit_component(self.z.raw(), n));
        XYZ { x: x.unwrap(), y: y.unwrap(), z: z.unwrap() }
    }

    /// The vector of length one in the same direction; a vector without
    /// length has no direction.
    pub fn unit(&self) -> (r: Result<XYZ, XdsError>)
        ensures
            v3_of(r) == checked_direction(self@),
    {
        let n = self.wide_norm();
        if n == 0 {
            return Err(XdsError::DegenerateGeometry);
        }
        Ok(self.unit_of(n))
    }

    /// The length of the vector.
    pub fn length(&self) -> (r: Result<Fixed, XdsError>)
        ensures
            value_of(r) == checked(self@.norm()),
    {
        narrow(self.wide_norm())
    }

    /// Brings the vector to length one and returns the length it had. On an
    /// error the vector is left as it was.
    pub fn uvec(&mut self) -> (r: Result<Fixed, XdsError>)
        ensures
            match checked_unit(old(self)@) {
                Ok((u, n)) => value_of(r) == Ok::<int, XdsError>(n) && final(self)@ == u,
                Err(e) => r.is_err() && r.unwrap_err() == e && final(self)@ == old(self)@,
            },
    {
        let n = self.wide_norm();
        if n == 0 {
            return Err(XdsError::DegenerateGeometry);
        }
        let len = narrow(n)?;
        let u = self.unit_of(n);
        *self = u;
        Ok(len)
    }
}

/// What a fallible angle result holds.
pub open spec fn angle_of(r: Result<Angle, XdsError>) -> Result<AngleView, XdsError> {
    match r {
        Ok(a) => Ok(a@),
        Err(e) => Err(e),
    }
}

/// The angle between two vectors: its cosine is the scalar product of the
/// two unit vectors, its sine is not negative. A vector without length has
/// no angle with any other.
pub open spec fn angle_between(a: V3, b: V3) -> Result<AngleView, XdsError> {
    if a.norm() == 0 || b.norm() == 0 {
        Err(XdsError::DegenerateGeometry)
    } else {
        Ok(angle_from_cosine(a.unit().dot(b.unit())))
    }
}

/// The part of a rotated vector that lies along the axis `k`, before it is
/// multiplied by `k`: the scalar product of axis and vector times one minus
/// the cosine.
pub open spec fn axial_part(v: V3, k: V3, t: AngleView) -> int {
    qmul(k.dot(v), ONE - t.cosine)
}

/// The vector `v` turned about the axis `k`, a vector of length one, by the
/// angle `t`: `v` times the cosine, plus the vector product of `k` and `v`
/// times the sine, plus `k` times the axial part. Each component is rounded
/// down once at the end; an intermediate value or a component that does not
/// fit is an error.
pub open spec fn rotated(v: V3, k: V3, t: AngleView) -> Result<V3, XdsError> {
    let w = k.cross(v);
    let m = axial_part(v, k, t);
    if !w.fits() || !fits(k.dot(v)) || !fits(m) {
        Err(XdsError::OutOfRange)
    } else {
        checked_v3(
            V3 {
                x: (v.x * t.cosine + w.x * t.sine + k.x * m) / (ONE as int),
                y: (v.y * t.cosine + w.y * t.sine + k.y * m) / (ONE as int),
                z: (v.z * t.cosine + w.z * t.sine + k.z * m) / (ONE as int),
            },
        )
    }
}

impl XYZ {
    /// The angle between this vector and another, as its cosine and sine.
    pub fn rad_sin_cos(&self, other: &XYZ) -> (r: Result<Angle, XdsError>)
        ensures
            angle_of(r) == angle_between(self@, other@),
    {
        let na = self.wide_norm();
        let nb = other.wide_norm();
        if na == 0 || nb == 0 {
            return Err(XdsError::DegenerateGeometry);
        }
        let ua = self.unit_of(na);
        let ub = other.unit_of(nb);
        proof {
            lemma_unit_fits(self@);
            lemma_unit_fits(other@);
        }
        let c = sum_of_products(
            ua.x.raw(),
            ub.x.raw(),
            ua.y.raw(),
            ub.y.raw(),
            ua.z.raw(),
            ub.z.raw(),
        );
        assert(-3_000_000_000_000_000_000 <= c <= 3_000_000_000_000_000_000) by (nonlinear_arith)
            requires
                c == ua@.x * ub@.x + ua@.y * ub@.y + ua@.z * ub@.z,
                -1_000_000_000 <= ua@.x <= 1_000_000_000,
                -1_000_000_000 <= ua@.y <= 1_000_000_000,
                -1_000_000_000 <= ua@.z <= 1_000_000_000,
                -1_000_000_000 <= ub@.x <= 1_000_000_000,
                -1_000_000_000 <= ub@.y <= 1_000_000_000,
                -1_000_000_000 <= ub@.z <= 1_000_000_000,
        ;
        let cosine = narrow(floor_div(c, 1_000_000_000)).unwrap();
        Ok(Angle::from_cosine(&cosine))
    }

    /// The vector turned about `axis`, a vector of length one, by `angle`.
    pub fn rotate(&self, axis: &XYZ, angle: &Angle) -> (r: Result<XYZ, XdsError>)
        ensures
            v3_of(r) == rotated(self@, axis@, angle@),
    {
        let w = axis.cross(self)?;
        let d = axis.dot(self)?;
        let c = angle.cosine();
        let s = angle.sine();
        let rest = narrow((ONE - c.raw()) as i128).unwrap();
        let m = d.mul(&rest)?;
        let x = sum_of_products(self.x.raw(), c.raw(), w.x.raw(), s.raw(), axis.x.raw(), m.raw());
        let y = sum_of_products(self.y.raw(), c.raw(), w.y.raw(), s.raw(), axis.y.raw(), m.raw());
        let z = sum_of_products(self.z.raw(), c.raw(), w.z.raw(), s.raw(), axis.z.raw(), m.raw());
        narrow_v3(
            floor_div(x, 1_000_000_000),
            floor_div(y, 1_000_000_000),
            floor_div(z, 1_000_000_000),
        )
    }
}

/// The magnitude of a raw value.
pub open spec fn magnitude(x: int) -> int {
    if x < 0 {
        -x
    } else {
        x
    }
}

/// The sum of the magnitudes of the components.
pub open spec fn taxicab(v: V3) -> int {
    magnitude(v.x) + magnitude(v.y) + magnitude(v.z)
}

/// Before rounding, the vector product stands exactly at right angles to
/// both of its factors.
pub proof fn lemma_cross_wide_orthogonal(a: V3, b: V3)
    ensures
        a.cross_wide(b).dot_wide(a) == 0,
        a.cross_wide(b).dot_wide(b) == 0,
{
    assert((a.y * b.z - a.z * b.y) * a.x + (a.z * b.x - a.x * b.z) * a.y + (a.x * b.y - a.y * b.x)
        * a.z == 0) by (nonlinear_arith);
    assert((a.y * b.z - a.z * b.y) * b.x + (a.z * b.x - a.x * b.z) * b.y + (a.x * b.y - a.y * b.x)
        * b.z == 0) by (nonlinear_arith);
}

/// What rounding down each component of `w` takes from a scalar product:
/// the product of the rounded `w` with `a`, times one, differs from the
/// product of `w` with `a` by less than the taxicab length of `a`.
pub proof fn lemma_rounded_dot(w: V3, a: V3)
    ensures
        magnitude(w.dot_wide(a) - ONE * w.over(ONE as int).dot_wide(a)) <= (ONE - 1) * taxicab(a),
{
    let c = w.over(ONE as int);
    let rx = w.x % (ONE as int);
    let ry = w.y % (ONE as int);
    let rz = w.z % (ONE as int);
    vstd::arithmetic::div_mod::lemma_fundamental_div_mod(w.x, ONE as int);
    vstd::arithmetic::div_mod::lemma_fundamental_div_mod(w.y, ONE as int);
    vstd::arithmetic::div_mod::lemma_fundamental_div_mod(w.z, ONE as int);
    let d = c.x * a.x + c.y * a.y + c.z * a.z;
    let e = w.x * a.x + w.y * a.y + w.z * a.z;
    assert(e - 1_000_000_000 * d == rx * a.x + ry * a.y + rz * a.z) by (nonlinear_arith)
        requires
            e == w.x * a.x + w.y * a.y + w.z * a.z,
            w.x == 1_000_000_000 * c.x + rx,
            w.y == 1_000_000_000 * c.y + ry,
            w.z == 1_000_000_000 * c.z + rz,
            d == c.x * a.x + c.y * a.y + c.z * a.z,
    ;
    lemma_remainder_term(rx, 999_999_999, a.x);
    lemma_remainder_term(ry, 999_999_999, a.y);
    lemma_remainder_term(rz, 999_999_999, a.z);
}

/// What dividing each component of `u` by `v` takes from a scalar product:
/// the product of the divided `u` with `a`, times `v`, differs from the
/// product of `u` with `a`, times one, by less than `v` times the taxicab
/// length of `a`.
pub proof fn lemma_divided_dot(u: V3, v: int, a: V3)
    requires
        v > 0,
    ensures
        magnitude(ONE * u.dot_wide(a) - v * u.divided(v).dot_wide(a)) <= (v - 1) * taxicab(a),
{
    let s = u.divided(v);
    let rx = (u.x * ONE) % v;
    let ry = (u.y * ONE) % v;
    let rz = (u.z * ONE) % v;
    vstd::arithmetic::div_mod::lemma_fundamental_div_mod(u.x * ONE, v);
    vstd::arithmetic::div_mod::lemma_fundamental_div_mod(u.y * ONE, v);
    vstd::arithmetic::div_mod::lemma_fundamental_div_mod(u.z * ONE, v);
    lemma_scaled_term(u.x, v, s.x, rx, a.x);
    lemma_scaled_term(u.y, v, s.y, ry, a.y);
    lemma_scaled_term(u.z, v, s.z, rz, a.z);
    assert(v * (s.x * a.x + s.y * a.y + s.z * a.z) == v * (s.x * a.x) + v * (s.y * a.y) + v * (s.z
        * a.z)) by (nonlinear_arith);
    lemma_remainder_term(rx, v - 1, a.x);
    lemma_remainder_term(ry, v - 1, a.y);
    lemma_remainder_term(rz, v - 1, a.z);
    assert((v - 1) * magnitude(a.x) + (v - 1) * magnitude(a.y) + (v - 1) * magnitude(a.z) == (v
        - 1) * taxicab(a)) by (nonlinear_arith)
        requires
            taxicab(a) == magnitude(a.x) + magnitude(a.y) + magnitude(a.z),
    ;
}

/// One term of a scalar product, before and after a division with
/// remainder.
proof fn lemma_scaled_term(ux: int, v: int, sx: int, rx: int, ax: int)
    by (nonlinear_arith)
    requires
        ux * 1_000_000_000 == v * sx + rx,
    ensures
        1_000_000_000 * (ux * ax) - v * (sx * ax) == rx * ax,
{
}

/// A remainder times a component stays within the largest remainder times
/// the component's magnitude.
proof fn lemma_remainder_term(r: int, top: int, x: int)
    by (nonlinear_arith)
    requires
        0 <= r <= top,
    ensures
        -(top * magnitude(x)) <= r * x <= top * magnitude(x),
{
}

/// The vector product stands at right angles to both of its factors, up to
/// rounding: its scalar product with either factor, taken before that
/// product is rounded, is less than a thousand-millionth of the factor's
/// taxicab length.
pub proof fn lemma_cross_orthogonal(a: V3, b: V3)
    ensures
        ONE * magnitude(a.cross(b).dot_wide(a)) <= (ONE - 1) * taxicab(a),
        ONE * magnitude(a.cross(b).dot_wide(b)) <= (ONE - 1) * taxicab(b),
{
    lemma_cross_wide_orthogonal(a, b);
    lemma_rounded_dot(a.cross_wide(b), a);
    lemma_rounded_dot(a.cross_wide(b), b);
}

/// A vector whose length is exactly one is its own unit vector.
pub proof fn lemma_unit_of_unit(a: V3)
    requires
        a.norm() == ONE,
    ensures
        a.unit() == a,
{
    assert(a.x * ONE / (ONE as int) == a.x && a.y * ONE / (ONE as int) == a.y && a.z * ONE / (
    ONE as int) == a.z);
}

/// Two vectors of length one at right angles to each other enclose the
/// quarter turn: cosine zero, sine one.
pub proof fn lemma_right_angle(a: V3, b: V3)
    requires
        a.norm() == ONE,
        b.norm() == ONE,
        a.dot_wide(b) == 0,
    ensures
        angle_between(a, b) == Ok::<AngleView, XdsError>(
            AngleView { cosine: 0, sine: ONE as int },
        ),
{
    lemma_unit_of_unit(a);
    lemma_unit_of_unit(b);
    assert(is_isqrt(ONE * ONE - 0 * 0, ONE as int)) by (nonlinear_arith);
    crate::fixed::lemma_isqrt_is(ONE * ONE - 0 * 0, ONE as int);
}

/// The angle between two vectors has cosine and sine between minus one and
/// one, and a sine that is not negative.
pub proof fn lemma_angle_between_bounded(a: V3, b: V3)
    requires
        angle_between(a, b) is Ok,
    ensures
        angle_between(a, b).unwrap().bounded(),
        angle_between(a, b).unwrap().sine >= 0,
{
    crate::angle::lemma_angle_on_circle(a.unit().dot(b.unit()));
}

/// Turning by the angle zero changes nothing: as long as the intermediate
/// values fit, the turned vector is the vector itself.
pub proof fn lemma_rotation_by_nothing(v: V3, k: V3)
    requires
        v.fits(),
        k.cross(v).fits(),
        fits(k.dot(v)),
    ensures
        rotated(v, k, AngleView { cosine: ONE as int, sine: 0 }) == Ok::<V3, XdsError>(v),
{
    let t = AngleView { cosine: ONE as int, sine: 0 };
    let w = k.cross(v);
    assert(axial_part(v, k, t) == 0) by {
        assert(k.dot(v) * (ONE - ONE) == 0);
    }
    assert(w.x * 0 == 0 && w.y * 0 == 0 && w.z * 0 == 0 && k.x * 0 == 0 && k.y * 0 == 0 && k.z * 0
        == 0);
    assert((v.x * ONE) / (ONE as int) == v.x && (v.y * ONE) / (ONE as int) == v.y && (v.z * ONE) / (
    ONE as int) == v.z);
}

/// How far the square of one component of a unit vector, times the square
/// of the length `n`, lies from the square of the component `x` times one:
/// `u` is the quotient and `r` the remainder of `x` times one by `n`.
proof fn lemma_unit_component_square(x: int, n: int, u: int, r: int)
    requires
        n > 0,
        -n <= x <= n,
        x * 1_000_000_000 == n * u + r,
        0 <= r < n,
    ensures
        1_000_000_000_000_000_000 * (x * x) - 2_000_000_000 * (n * n) <= (n * n) * (u * u),
        (n * n) * (u * u) <= 1_000_000_000_000_000_000 * (x * x) + 2_000_000_000 * (n * n) + n * n,
{
    let nu = n * u;
    assert((n * n) * (u * u) == nu * nu) by (nonlinear_arith)
        requires
            nu == n * u,
    ;
    assert(nu * nu == 1_000_000_000_000_000_000 * (x * x) - 2_000_000_000 * (x * r) + r * r)
        by (nonlinear_arith)
        requires
            nu == x * 1_000_000_000 - r,
    ;
    assert(-(n * n) <= x * r <= n * n) by (nonlinear_arith)
        requires
            -n <= x <= n,
            0 <= r < n,
    ;
    assert(0 <= r * r <= n * n) by (nonlinear_arith)
        requires
            0 <= r < n,
    ;
}

/// The unit vector of a vector at least one long has the length one, up to
/// rounding: its length lies within four thousand-millionths of one.
pub proof fn lemma_unit_has_length_one(v: V3)
    requires
        v.norm() >= ONE,
    ensures
        ONE - 4 <= v.unit().norm() <= ONE + 4,
{
    lemma_norm_is_isqrt(v);
    let n = v.norm();
    let s = v.dot_wide(v);
    let u = v.unit();
    assert(v.y * v.y + v.z * v.z >= 0 && v.x * v.x + v.z * v.z >= 0 && v.x * v.x + v.y * v.y
        >= 0) by (nonlinear_arith);
    lemma_component_within_norm(v.x, v.y * v.y + v.z * v.z, n);
    lemma_component_within_norm(v.y, v.x * v.x + v.z * v.z, n);
    lemma_component_within_norm(v.z, v.x * v.x + v.y * v.y, n);
    vstd::arithmetic::div_mod::lemma_fundamental_div_mod(v.x * ONE, n);
    vstd::arithmetic::div_mod::lemma_fundamental_div_mod(v.y * ONE, n);
    vstd::arithmetic::div_mod::lemma_fundamental_div_mod(v.z * ONE, n);
    lemma_unit_component_square(v.x, n, u.x, (v.x * ONE) % n);
    lemma_unit_component_square(v.y, n, u.y, (v.y * ONE) % n);
    lemma_unit_component_square(v.z, n, u.z, (v.z * ONE) % n);
    let uu = u.dot_wide(u);
    let nn = n * n;
    assert(nn * uu == nn * (u.x * u.x) + nn * (u.y * u.y) + nn * (u.z * u.z)) by (nonlinear_arith)
        requires
            uu == u.x * u.x + u.y * u.y + u.z * u.z,
    ;
    assert(1_000_000_000_000_000_000 * s == 1_000_000_000_000_000_000 * (v.x * v.x)
        + 1_000_000_000_000_000_000 * (v.y * v.y) + 1_000_000_000_000_000_000 * (v.z * v.z));
    // the square of the length times the square of the unit vector's length
    // lies near the sum of the squares times one
    assert(1_000_000_000_000_000_000 * s - 6_000_000_000 * nn <= nn * uu);
    assert(nn * uu <= 1_000_000_000_000_000_000 * s + 6_000_000_000 * nn + 3 * nn);
    assert((n + 1) * (n + 1) == nn + 2 * n + 1) by (nonlinear_arith)
        requires
            nn == n * n,
    ;
    assert(nn <= s <= nn + 2 * n);
    assert(1_000_000_000 * n <= nn) by (nonlinear_arith)
        requires
            n >= 1_000_000_000,
            nn == n * n,
    ;
    assert(nn > 0);
    assert(999_999_994_000_000_000 <= uu) by (nonlinear_arith)
        requires
            1_000_000_000_000_000_000 * nn - 6_000_000_000 * nn <= nn * uu,
            nn > 0,
    ;
    assert(uu <= 1_000_000_008_000_000_003) by (nonlinear_arith)
        requires
            nn * uu <= 1_000_000_000_000_000_000 * nn + 2_000_000_000 * nn + 6_000_000_000 * nn + 3
                * nn,
            nn > 0,
    ;
    lemma_isqrt_exists(uu);
    let root = isqrt(uu);
    if root >= ONE + 5 {
        assert(root * root >= 1_000_000_010_000_000_025) by (nonlinear_arith)
            requires
                root >= 1_000_000_005,
        ;
    }
    if root <= ONE - 5 {
        assert((root + 1) * (root + 1) <= 999_999_992_000_000_016) by (nonlinear_arith)
            requires
                0 <= root <= 999_999_995,
        ;
    }
}

} // verus!
