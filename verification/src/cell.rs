//! The unit cell: its axes in Cartesian coordinates, its volume, its
//! reciprocal axes and the orientation matrix.

use crate::angle::{Angle, AngleView};
use crate::error::XdsError;
use crate::fixed::{
    checked, fits, floor_div, integer_sqrt, isqrt, narrow, qdiv, qmul, value_of, wide_product,
    Fixed, ONE,
};
use crate::xyz::{
    checked_v3, lemma_cross_wide_orthogonal, lemma_divided_dot, lemma_rounded_dot, magnitude,
    taxicab, v3_of, V3, XYZ,
};
use vstd::prelude::*;

verus! {

/// Three vectors: the axes of a cell, or of its reciprocal.
pub struct Basis {
    pub a: V3,
    pub b: V3,
    pub c: V3,
}

/// What a fallible result of three vectors holds.
pub open spec fn basis_of(r: Result<(XYZ, XYZ, XYZ), XdsError>) -> Result<Basis, XdsError> {
    match r {
        Ok(t) => Ok(Basis { a: t.0@, b: t.1@, c: t.2@ }),
        Err(e) => Err(e),
    }
}

/// The second component of the third axis: the product of the lengths `b`
/// and `c` times the cosine between them, less what the first components
/// contribute, over the second component `by` of the second axis.
pub open spec fn third_axis_y(b: int, c: int, alpha: AngleView, bx: int, by: int, cx: int) -> int {
    qdiv(qmul(qmul(b, c), alpha.cosine) - qmul(bx, cx), by)
}

/// The axes of the cell with edges `a`, `b`, `c` and angles `alpha` (between
/// the second and third axis), `beta` (first and third) and `gamma` (first
/// and second): the first axis along x, the second in the xy plane, the
/// third completing the set. A second axis along x and a third axis whose
/// square would be negative are no cell.
pub open spec fn cell_basis(
    a: int,
    b: int,
    c: int,
    alpha: AngleView,
    beta: AngleView,
    gamma: AngleView,
) -> Result<Basis, XdsError> {
    let bx = qmul(b, gamma.cosine);
    let by = qmul(b, gamma.sine);
    let cx = qmul(c, beta.cosine);
    let cy = third_axis_y(b, c, alpha, bx, by, cx);
    let radicand = c * c - cx * cx - cy * cy;
    if by == 0 {
        Err(XdsError::DegenerateGeometry)
    } else if !fits(qmul(b, c)) || !fits(cy) {
        Err(XdsError::OutOfRange)
    } else if radicand < 0 {
        Err(XdsError::DegenerateGeometry)
    } else {
        Ok(
            Basis {
                a: V3 { x: a, y: 0, z: 0 },
                b: V3 { x: bx, y: by, z: 0 },
                c: V3 { x: cx, y: cy, z: isqrt(radicand) },
            },
        )
    }
}

/// The volume that three axes span: the scalar product of the first with the
/// vector product of the other two.
pub open spec fn cell_volume(a: V3, b: V3, c: V3) -> Result<int, XdsError> {
    if !b.cross(c).fits() {
        Err(XdsError::OutOfRange)
    } else {
        checked(a.dot(b.cross(c)))
    }
}

/// The reciprocal axes of a cell with positive volume `v`: each the vector
/// product of the two other axes, in cyclic order, over the volume.
pub open spec fn reciprocal_for(a: V3, b: V3, c: V3, v: int) -> Result<Basis, XdsError> {
    let astar = b.cross(c).divided(v);
    let bstar = c.cross(a).divided(v);
    let cstar = a.cross(b).divided(v);
    if !c.cross(a).fits() || !a.cross(b).fits() || !astar.fits() || !bstar.fits()
        || !cstar.fits() {
        Err(XdsError::OutOfRange)
    } else {
        Ok(Basis { a: astar, b: bstar, c: cstar })
    }
}

/// The reciprocal axes of a cell; a cell whose volume is not positive has
/// none.
pub open spec fn reciprocal_basis(a: V3, b: V3, c: V3) -> Result<Basis, XdsError> {
    match cell_volume(a, b, c) {
        Err(e) => Err(e),
        Ok(v) => if v <= 0 {
            Err(XdsError::DegenerateGeometry)
        } else {
            reciprocal_for(a, b, c, v)
        },
    }
}

/// The product of a raw value with a cosine or sine is no larger than the
/// value.
proof fn lemma_qmul_within(b: int, t: int)
    requires
        -ONE <= t <= ONE,
    ensures
        -magnitude(b) <= qmul(b, t) <= magnitude(b),
{
    let m = magnitude(b);
    assert(-m * 1_000_000_000 <= b * t <= m * 1_000_000_000) by (nonlinear_arith)
        requires
            -1_000_000_000 <= t <= 1_000_000_000,
            m == if b < 0 {
                -b
            } else {
                b
            },
    ;
}

/// A number times a cosine or sine.
fn times_unit(x: &Fixed, t: &Fixed) -> (r: Fixed)
    requires
        -ONE <= t@ <= ONE,
    ensures
        r@ == qmul(x@, t@),
{
    let p = wide_product(x.raw(), t.raw());
    proof {
        lemma_qmul_within(x@, t@);
    }
    narrow(floor_div(p, 1_000_000_000)).unwrap()
}

/// The volume spanned by three axes.
pub fn volume(a: &XYZ, b: &XYZ, c: &XYZ) -> (r: Result<Fixed, XdsError>)
    ensures
        value_of(r) == cell_volume(a@, b@, c@),
{
    let w = b.cross(c)?;
    a.dot(&w)
}

/// The reciprocal axes of the cell with axes `a`, `b`, `c`.
pub fn rec_cell(a: &XYZ, b: &XYZ, c: &XYZ) -> (r: Result<(XYZ, XYZ, XYZ), XdsError>)
    ensures
        basis_of(r) == reciprocal_basis(a@, b@, c@),
{
    let bc = b.cross(c)?;
    let v = a.dot(&bc)?;
    if v.raw() <= 0 {
        return Err(XdsError::DegenerateGeometry);
    }
    let ca = c.cross(a)?;
    let ab = a.cross(b)?;
    let astar = bc.div(&v)?;
    let bstar = ca.div(&v)?;
    let cstar = ab.div(&v)?;
    Ok((astar, bstar, cstar))
}

/// The axes of the cell with the given edges and angles.
pub fn abc2vector(
    a: &Fixed,
    b: &Fixed,
    c: &Fixed,
    alpha: &Angle,
    beta: &Angle,
    gamma: &Angle,
) -> (r: Result<(XYZ, XYZ, XYZ), XdsError>)
    ensures
        basis_of(r) == cell_basis(a@, b@, c@, alpha@, beta@, gamma@),
{
    let bx = times_unit(b, &gamma.cosine());
    let by = times_unit(b, &gamma.sine());
    let cx = times_unit(c, &beta.cosine());
    if by.is_zero() {
        return Err(XdsError::DegenerateGeometry);
    }
    let bc = b.mul(c)?;
    let first = times_unit(&bc, &alpha.cosine());
    let second = floor_div(wide_product(bx.raw(), cx.raw()), 1_000_000_000);
    let num: i128 = (first.raw() as i128 - second) * 1_000_000_000;
    let cy = if by.raw() > 0 {
        narrow(floor_div(num, by.raw() as i128))?
    } else {
        narrow(floor_div(-num, -(by.raw() as i128)))?
    };
    let radicand = wide_product(c.raw(), c.raw()) - wide_product(cx.raw(), cx.raw())
        - wide_product(cy.raw(), cy.raw());
    if radicand < 0 {
        return Err(XdsError::DegenerateGeometry);
    }
    assert(cx@ * cx@ >= 0 && cy@ * cy@ >= 0) by (nonlinear_arith);
    let root = integer_sqrt(radicand as u128);
    assert(root <= 1_000_000_000_000_000_000) by (nonlinear_arith)
        requires
            root * root <= radicand,
            radicand <= 1_000_000_000_000_000_000_000_000_000_000_000_000,
            0 <= root,
    ;
    let cz = narrow(root as i128).unwrap();
    let zero = Fixed::zero();
    Ok((XYZ::new(*a, zero, zero), XYZ::new(bx, by, zero), XYZ::new(cx, cy, cz)))
}

/// The point of the reciprocal lattice with the indices `h`, `k`, `l`: so
/// many times the first, second and third reciprocal axis.
pub open spec fn lattice_point(h: int, k: int, l: int, s: Basis) -> V3 {
    s.a.times(h).plus(s.b.times(k)).plus(s.c.times(l))
}

/// The square of the distance of a lattice point from the origin.
pub open spec fn d_star_squared(h: int, k: int, l: int, s: Basis) -> Result<int, XdsError> {
    let p = lattice_point(h, k, l, s);
    if !p.fits() {
        Err(XdsError::OutOfRange)
    } else {
        checked(p.dot(p))
    }
}

/// The nine entries of the matrix whose columns are the three vectors of
/// `s`, row by row.
pub open spec fn matrix_of(s: Basis) -> Seq<int> {
    seq![s.a.x, s.b.x, s.c.x, s.a.y, s.b.y, s.c.y, s.a.z, s.b.z, s.c.z]
}

/// The raw values of nine numbers.
pub open spec fn matrix_view(m: [Fixed; 9]) -> Seq<int> {
    Seq::new(9, |i: int| m[i]@)
}

/// What a fallible matrix result holds.
pub open spec fn matrix_result(r: Result<[Fixed; 9], XdsError>) -> Result<Seq<int>, XdsError> {
    match r {
        Ok(m) => Ok(matrix_view(m)),
        Err(e) => Err(e),
    }
}

/// The orientation matrix of a cell: its columns are the reciprocal axes.
pub open spec fn orientation_matrix(a: V3, b: V3, c: V3) -> Result<Seq<int>, XdsError> {
    match reciprocal_basis(a, b, c) {
        Ok(s) => Ok(matrix_of(s)),
        Err(e) => Err(e),
    }
}

/// The orientation matrix of the cell with axes `a`, `b`, `c`: it takes the
/// indices of a reflection to its place in reciprocal space.
#[allow(non_snake_case)]
pub fn U_AB(a: &XYZ, b: &XYZ, c: &XYZ) -> (r: Result<[Fixed; 9], XdsError>)
    ensures
        matrix_result(r) == orientation_matrix(a@, b@, c@),
{
    let (astar, bstar, cstar) = rec_cell(a, b, c)?;
    let m = [
        astar.x(),
        bstar.x(),
        cstar.x(),
        astar.y(),
        bstar.y(),
        cstar.y(),
        astar.z(),
        bstar.z(),
        cstar.z(),
    ];
    proof {
        assert(matrix_view(m) =~= matrix_of(Basis { a: astar@, b: bstar@, c: cstar@ }));
    }
    Ok(m)
}

/// One component of a lattice point.
fn lattice_component(h: i32, k: i32, l: i32, a: &Fixed, b: &Fixed, c: &Fixed) -> (p: i128)
    ensures
        p == a@ * h + b@ * k + c@ * l,
{
    let hf = Fixed::from_raw(h as i64).unwrap();
    let kf = Fixed::from_raw(k as i64).unwrap();
    let lf = Fixed::from_raw(l as i64).unwrap();
    wide_product(a.raw(), hf.raw()) + wide_product(b.raw(), kf.raw()) + wide_product(
        c.raw(),
        lf.raw(),
    )
}

/// The point of the lattice spanned by `a`, `b`, `c` with the indices `h`,
/// `k`, `l`.
pub fn lattice_vector(h: i32, k: i32, l: i32, a: &XYZ, b: &XYZ, c: &XYZ) -> (r: Result<
    XYZ,
    XdsError,
>)
    ensures
        v3_of(r) == checked_v3(
            lattice_point(h as int, k as int, l as int, Basis { a: a@, b: b@, c: c@ }),
        ),
{
    let x = narrow(lattice_component(h, k, l, &a.x(), &b.x(), &c.x()));
    let y = narrow(lattice_component(h, k, l, &a.y(), &b.y(), &c.y()));
    let z = narrow(lattice_component(h, k, l, &a.z(), &b.z(), &c.z()));
    Ok(XYZ::new(x?, y?, z?))
}

/// The square of the distance from the origin of the reciprocal-lattice
/// point with the indices `h`, `k`, `l`.
pub fn reciprocal_d_spacing(h: i32, k: i32, l: i32, a: &XYZ, b: &XYZ, c: &XYZ) -> (r: Result<
    Fixed,
    XdsError,
>)
    ensures
        value_of(r) == d_star_squared(h as int, k as int, l as int, Basis { a: a@, b: b@, c: c@ }),
{
    let p = lattice_vector(h, k, l, a, b, c)?;
    p.dot(&p)
}

/// The quarter turn: cosine zero, sine one.
pub open spec fn quarter_turn() -> AngleView {
    AngleView { cosine: 0, sine: ONE as int }
}

/// A cell with three right angles has its axes along x, y and z, each as
/// long as its edge: three vectors at right angles to each other, of the
/// given lengths.
pub proof fn lemma_right_angled_cell(a: int, b: int, c: int)
    requires
        0 <= a,
        0 < b,
        0 <= c,
        fits(qmul(b, c)),
    ensures
        cell_basis(a, b, c, quarter_turn(), quarter_turn(), quarter_turn()) == Ok::<
            Basis,
            XdsError,
        >(
            Basis {
                a: V3 { x: a, y: 0, z: 0 },
                b: V3 { x: 0, y: b, z: 0 },
                c: V3 { x: 0, y: 0, z: c },
            },
        ),
        (V3 { x: a, y: 0, z: 0 }).dot_wide(V3 { x: 0, y: b, z: 0 }) == 0,
        (V3 { x: a, y: 0, z: 0 }).dot_wide(V3 { x: 0, y: 0, z: c }) == 0,
        (V3 { x: 0, y: b, z: 0 }).dot_wide(V3 { x: 0, y: 0, z: c }) == 0,
        (V3 { x: a, y: 0, z: 0 }).norm() == a,
        (V3 { x: 0, y: b, z: 0 }).norm() == b,
        (V3 { x: 0, y: 0, z: c }).norm() == c,
{
    let q = quarter_turn();
    assert(a * 0 == 0 && 0 * b == 0 && 0 * c == 0 && 0 * 0 == 0 && b * 0 == 0);
    assert(qmul(b, 0) == 0 && qmul(c, 0) == 0 && qmul(qmul(b, c), 0) == 0 && qmul(0, 0) == 0);
    assert(qmul(b, ONE as int) == b) by {
        assert(b * ONE / (ONE as int) == b);
    }
    assert(third_axis_y(b, c, q, 0, b, 0) == 0) by {
        assert((0 * ONE) / b == 0) by (nonlinear_arith)
            requires
                b > 0,
        ;
    }
    lemma_square_root(a);
    lemma_square_root(b);
    lemma_square_root(c);
    assert(c * c - 0 * 0 - 0 * 0 == c * c);
    assert(a * a + 0 * 0 + 0 * 0 == a * a);
    assert(0 * 0 + b * b + 0 * 0 == b * b);
    assert(0 * 0 + 0 * 0 + c * c == c * c);
    assert(c * c >= 0) by (nonlinear_arith);
}

/// The integer square root of a square is the number squared.
proof fn lemma_square_root(x: int)
    requires
        0 <= x,
    ensures
        isqrt(x * x) == x,
{
    assert(crate::fixed::is_isqrt(x * x, x)) by (nonlinear_arith)
        requires
            0 <= x,
    ;
    crate::fixed::lemma_isqrt_is(x * x, x);
}

/// A cell whose first two axes lie along each other, as with an angle of
/// zero or of a half turn between them, is refused.
pub proof fn lemma_flat_cell(a: int, b: int, c: int, alpha: AngleView, beta: AngleView, gamma: AngleView)
    requires
        gamma.sine == 0,
    ensures
        cell_basis(a, b, c, alpha, beta, gamma) == Err::<Basis, XdsError>(
            XdsError::DegenerateGeometry,
        ),
{
    assert(b * 0 == 0) by (nonlinear_arith);
}

/// A cell whose volume is zero or negative has no reciprocal axes and no
/// orientation matrix: both are refused as degenerate.
pub proof fn lemma_no_volume(a: V3, b: V3, c: V3)
    requires
        cell_volume(a, b, c) matches Ok(v) && v <= 0,
    ensures
        reciprocal_basis(a, b, c) == Err::<Basis, XdsError>(XdsError::DegenerateGeometry),
        orientation_matrix(a, b, c) == Err::<Seq<int>, XdsError>(XdsError::DegenerateGeometry),
{
}

/// A product of three factors, the first a difference.
proof fn lemma_expand(p: int, q: int, r: int, s: int, t: int)
    by (nonlinear_arith)
    ensures
        (p * q - r * s) * t == p * q * t - r * s * t,
{
}

/// Three factors in another order.
proof fn lemma_reorder(p: int, q: int, r: int)
    by (nonlinear_arith)
    ensures
        p * q * r == q * r * p,
        p * q * r == r * p * q,
        p * q * r == q * p * r,
        p * q * r == p * r * q,
        p * q * r == r * q * p,
{
}

/// The volume before rounding does not change when the axes change places
/// in cyclic order.
proof fn lemma_triple_product_cyclic(a: V3, b: V3, c: V3)
    ensures
        b.cross_wide(c).dot_wide(a) == c.cross_wide(a).dot_wide(b),
{
    lemma_expand(b.y, c.z, b.z, c.y, a.x);
    lemma_expand(b.z, c.x, b.x, c.z, a.y);
    lemma_expand(b.x, c.y, b.y, c.x, a.z);
    lemma_expand(c.y, a.z, c.z, a.y, b.x);
    lemma_expand(c.z, a.x, c.x, a.z, b.y);
    lemma_expand(c.x, a.y, c.y, a.x, b.z);
    lemma_reorder(b.y, c.z, a.x);
    lemma_reorder(b.z, c.y, a.x);
    lemma_reorder(b.z, c.x, a.y);
    lemma_reorder(b.x, c.z, a.y);
    lemma_reorder(b.x, c.y, a.z);
    lemma_reorder(b.y, c.x, a.z);
}

/// A reciprocal axis against an axis that its vector product was made of:
/// `w` is that vector product before rounding, so at right angles to `x`.
proof fn lemma_dual_zero(w: V3, v: int, x: V3)
    requires
        v > 0,
        w.dot_wide(x) == 0,
    ensures
        magnitude(v * w.over(ONE as int).divided(v).dot_wide(x)) <= (ONE + v) * taxicab(x),
{
    lemma_rounded_dot(w, x);
    lemma_divided_dot(w.over(ONE as int), v, x);
    let t = taxicab(x);
    assert((ONE - 1) * t + (v - 1) * t <= (ONE + v) * t) by (nonlinear_arith)
        requires
            t >= 0,
            v > 0,
    ;
}

/// A reciprocal axis against its own axis: `w` is the vector product of the
/// two other axes before rounding, and `t`, its scalar product with `x`, is
/// the volume before any rounding.
proof fn lemma_dual_one(w: V3, v: int, x: V3, t: int, slack: int)
    requires
        v > 0,
        w.dot_wide(x) == t,
        magnitude(t - ONE * ONE * v) <= slack,
    ensures
        magnitude(v * (w.over(ONE as int).divided(v).dot_wide(x) - ONE * ONE)) <= slack + (ONE + v)
            * taxicab(x),
{
    lemma_rounded_dot(w, x);
    lemma_divided_dot(w.over(ONE as int), v, x);
    let tx = taxicab(x);
    let d = w.over(ONE as int).divided(v).dot_wide(x);
    assert((ONE - 1) * tx + (v - 1) * tx <= (ONE + v) * tx) by (nonlinear_arith)
        requires
            tx >= 0,
            v > 0,
    ;
    assert(v * (d - ONE * ONE) == v * d - ONE * ONE * v) by (nonlinear_arith);
}

/// The reciprocal axes are dual to the axes, up to rounding. `v` is the
/// volume, `x*` the reciprocal axis of the axis `x`, and all scalar products
/// are taken before they are rounded, so that one stands as `ONE * ONE`.
/// Each reciprocal axis times its own axis differs from one, and times
/// either of the other axes from zero, by an amount that, multiplied by the
/// volume, stays within a few taxicab lengths: a relative error in the
/// order of a thousand-millionth of the cell's edges.
pub proof fn lemma_reciprocal_duality(a: V3, b: V3, c: V3)
    requires
        reciprocal_basis(a, b, c) is Ok,
    ensures
        ({
            let s = reciprocal_basis(a, b, c).unwrap();
            let v = a.dot(b.cross(c));
            let own = ONE * ONE + ONE * taxicab(a);
            &&& v > 0
            &&& magnitude(v * (s.a.dot_wide(a) - ONE * ONE)) <= own + (ONE + v) * taxicab(a)
            &&& magnitude(v * (s.b.dot_wide(b) - ONE * ONE)) <= own + (ONE + v) * taxicab(b)
            &&& magnitude(v * (s.c.dot_wide(c) - ONE * ONE)) <= own + (ONE + v) * taxicab(c)
            &&& magnitude(v * s.a.dot_wide(b)) <= (ONE + v) * taxicab(b)
            &&& magnitude(v * s.a.dot_wide(c)) <= (ONE + v) * taxicab(c)
            &&& magnitude(v * s.b.dot_wide(a)) <= (ONE + v) * taxicab(a)
            &&& magnitude(v * s.b.dot_wide(c)) <= (ONE + v) * taxicab(c)
            &&& magnitude(v * s.c.dot_wide(a)) <= (ONE + v) * taxicab(a)
            &&& magnitude(v * s.c.dot_wide(b)) <= (ONE + v) * taxicab(b)
        }),
{
    let v = a.dot(b.cross(c));
    let wa = b.cross_wide(c);
    let wb = c.cross_wide(a);
    let wc = a.cross_wide(b);
    lemma_cross_wide_orthogonal(b, c);
    lemma_cross_wide_orthogonal(c, a);
    lemma_cross_wide_orthogonal(a, b);
    lemma_dual_zero(wa, v, b);
    lemma_dual_zero(wa, v, c);
    lemma_dual_zero(wb, v, c);
    lemma_dual_zero(wb, v, a);
    lemma_dual_zero(wc, v, a);
    lemma_dual_zero(wc, v, b);
    // the volume before rounding, which the three triple products share
    let t = wa.dot_wide(a);
    lemma_triple_product_cyclic(a, b, c);
    lemma_triple_product_cyclic(b, c, a);
    // how far the rounded volume, times one twice, lies from it
    let w = b.cross(c);
    lemma_rounded_dot(wa, a);
    vstd::arithmetic::div_mod::lemma_fundamental_div_mod(a.dot_wide(w), ONE as int);
    assert(w.dot_wide(a) == a.dot_wide(w)) by (nonlinear_arith)
        requires
            w.dot_wide(a) == w.x * a.x + w.y * a.y + w.z * a.z,
            a.dot_wide(w) == a.x * w.x + a.y * w.y + a.z * w.z,
    ;
    let slack = ONE * ONE + ONE * taxicab(a);
    assert(magnitude(t - ONE * ONE * v) <= slack) by {
        let r = a.dot_wide(w) % (ONE as int);
        assert(a.dot_wide(w) == ONE * v + r);
        assert(ONE * (ONE * v + r) == ONE * ONE * v + ONE * r) by (nonlinear_arith);
        assert(0 <= ONE * r <= ONE * ONE) by (nonlinear_arith)
            requires
                0 <= r < ONE,
        ;
        assert((ONE - 1) * taxicab(a) <= ONE * taxicab(a)) by (nonlinear_arith)
            requires
                taxicab(a) >= 0,
        ;
    }
    lemma_dual_one(wa, v, a, t, slack);
    lemma_dual_one(wb, v, b, t, slack);
    lemma_dual_one(wc, v, c, t, slack);
}

} // verus!
