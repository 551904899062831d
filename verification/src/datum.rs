//! One measured reflection, and the direction cosines that its place on the
//! detector gives the three axes of the crystal.

use crate::angle::{angle_from_cosine, clamp_to_unit, lemma_clamped_cosine, Angle, AngleView};
use crate::cell::{lattice_point, lattice_vector, matrix_view, Basis};
use crate::error::{viewed, XdsError};
use crate::fixed::{fits, floor_div, narrow, qdiv, qmul, wide_product, Fixed, ONE};
use crate::header::{DetView, GeomView, XDSheader};
use crate::xyz::{
    angle_between, checked_direction, checked_unit, lemma_norm_is_isqrt, rotated, V3, XYZ,
};
use vstd::prelude::*;

verus! {

/// What a reflection record holds.
pub struct DatumView {
    pub h: int,
    pub k: int,
    pub l: int,
    pub intensity: int,
    pub sigma: int,
    pub xd: int,
    pub yd: int,
    pub zd: int,
    pub rlp: int,
    pub peak: int,
    pub corr: int,
    pub psi: int,
}

/// One reflection: its indices, its intensity and the uncertainty of it,
/// where it was observed on the detector and in the rotation, and four
/// numbers that the integration reports with it.
#[derive(Clone, Copy, Debug)]
#[allow(non_snake_case)]
pub struct XDSdatum {
    h: i32,
    k: i32,
    l: i32,
    I: Fixed,
    sigI: Fixed,
    xyzd: [Fixed; 3],
    rlp: Fixed,
    peak: Fixed,
    corr: Fixed,
    psi: Fixed,
}

impl View for XDSdatum {
    type V = DatumView;

    closed spec fn view(&self) -> DatumView {
        DatumView {
            h: self.h as int,
            k: self.k as int,
            l: self.l as int,
            intensity: self.I@,
            sigma: self.sigI@,
            xd: self.xyzd[0]@,
            yd: self.xyzd[1]@,
            zd: self.xyzd[2]@,
            rlp: self.rlp@,
            peak: self.peak@,
            corr: self.corr@,
            psi: self.psi@,
        }
    }
}

/// Column `i` of a matrix of nine entries, row by row.
pub open spec fn column(m: Seq<int>, i: int) -> V3 {
    V3 { x: m[i], y: m[i + 3], z: m[i + 6] }
}

/// The place of the reflection `h`, `k`, `l` in reciprocal space: the
/// orientation matrix applied to the indices.
pub open spec fn reflection_vector(m: Seq<int>, h: int, k: int, l: int) -> V3 {
    lattice_point(h, k, l, Basis { a: column(m, 0), b: column(m, 1), c: column(m, 2) })
}

/// What the length and direction of a reflection's vector give.
pub struct BraggView {
    /// The direction of the reflection's vector, of length one.
    pub dir: V3,
    /// Half the length of the vector: the sine of the diffraction angle
    /// over the wavelength.
    pub sthl: int,
    /// The sine of the diffraction angle.
    pub sin_theta: int,
    /// The angle whose cosine is that sine.
    pub phi: AngleView,
}

/// The diffraction angle of the reflection `h`, `k`, `l` at the wavelength
/// `lambda`.
pub open spec fn bragg(m: Seq<int>, h: int, k: int, l: int, lambda: int) -> Result<
    BraggView,
    XdsError,
> {
    let p = reflection_vector(m, h, k, l);
    if !p.fits() {
        Err(XdsError::OutOfRange)
    } else {
        match checked_unit(p) {
            Err(e) => Err(e),
            Ok((dir, length)) => {
                let sthl = length / 2;
                let sin_theta = qmul(sthl, lambda);
                if !fits(sin_theta) {
                    Err(XdsError::OutOfRange)
                } else {
                    Ok(BraggView { dir, sthl, sin_theta, phi: angle_from_cosine(sin_theta) })
                }
            },
        }
    }
}

/// The angle between zero and a half turn whose cosine is `num` over `den`;
/// there is none where `den` is zero.
pub open spec fn aux_angle(num: int, den: int) -> Result<AngleView, XdsError> {
    if den == 0 {
        Err(XdsError::DegenerateGeometry)
    } else {
        Ok(angle_from_cosine(qdiv(num, den)))
    }
}

/// The two angles from which the candidates for the rotation are made.
pub struct AuxiliaryView {
    pub s: AngleView,
    pub t: AngleView,
}

/// The two auxiliary angles of a reflection. With `rot` the angle between
/// the reflection and the rotation axis, `s0` the angle between the
/// reflection and the beam, and `s0r` the angle between beam and rotation
/// axis: the cosine of `s` is the cosine of `rot` times that of `s0r`, less
/// the cosine of `s0`, over the product of the sines of `rot` and `s0r`. The
/// cosine of `t` is the sine of the diffraction angle, less the cosine of
/// `rot` times the third number of the geometry's triple, over the sine of
/// `rot` times the second number of the triple.
pub open spec fn auxiliary(b: BraggView, g: GeomView) -> Result<AuxiliaryView, XdsError> {
    match angle_between(b.dir, g.rotaxis) {
        Err(e) => Err(e),
        Ok(rot) => match angle_between(b.dir, g.dir_beam) {
            Err(e) => Err(e),
            Ok(s0) => match angle_between(g.dir_beam, g.rotaxis) {
                Err(e) => Err(e),
                Ok(s0r) => match aux_angle(
                    qmul(rot.cosine, s0r.cosine) - s0.cosine,
                    qmul(rot.sine, s0r.sine),
                ) {
                    Err(e) => Err(e),
                    Ok(s) => match aux_angle(
                        b.sin_theta - qmul(rot.cosine, g.s0r[2]),
                        qmul(rot.sine, g.s0r[1]),
                    ) {
                        Err(e) => Err(e),
                        Ok(t) => Ok(AuxiliaryView { s, t }),
                    },
                },
            },
        },
    }
}

/// The vector from the sample to the place on the detector where the
/// reflection was observed: the detector's axes times the distances, in
/// length units, of that place from the pixel that the beam hits, plus the
/// detector normal times the distance of the detector.
pub open spec fn detector_offset(d: DatumView, det: DetView, dist: int) -> Result<V3, XdsError> {
    let x = qmul(det.qx, d.xd - det.orgx);
    let y = qmul(det.qy, d.yd - det.orgy);
    let ex = det.detx.scaled(x);
    let ey = det.dety.scaled(y);
    let ez = det.detz.scaled(dist);
    if !fits(x) || !fits(y) || !ex.fits() || !ey.fits() || !ez.fits() || !ex.plus(ey).fits()
        || !ex.plus(ey).plus(ez).fits() {
        Err(XdsError::OutOfRange)
    } else {
        Ok(ex.plus(ey).plus(ez))
    }
}

/// What the trial of one rotation angle gives.
pub struct TrialView {
    /// The cosine of the angle between the predicted and the observed
    /// direction: the higher, the better the two agree.
    pub score: int,
    /// The predicted direction.
    pub e2: V3,
}

/// The trial of the rotation angle `v`: the reflection is turned about the
/// rotation axis by `v`; `e1` is the unit vector along the vector product of
/// the turned reflection and the beam; the predicted direction `e2` is the
/// turned reflection turned about `e1` by `phi`, and is held against the
/// observed direction `e3`.
pub open spec fn trial(dir: V3, g: GeomView, phi: AngleView, e3: V3, v: AngleView) -> Result<
    TrialView,
    XdsError,
> {
    match rotated(dir, g.rotaxis, v) {
        Err(e) => Err(e),
        Ok(turned) => if !turned.cross(g.dir_beam).fits() {
            Err(XdsError::OutOfRange)
        } else {
            match checked_direction(turned.cross(g.dir_beam)) {
                Err(e) => Err(e),
                Ok(e1) => match rotated(turned, e1, phi) {
                    Err(e) => Err(e),
                    Ok(e2) => match angle_between(e2, e3) {
                        Err(e) => Err(e),
                        Ok(a) => Ok(TrialView { score: a.cosine, e2 }),
                    },
                },
            }
        },
    }
}

/// The four rotation angles that are tried, in the order in which they are
/// tried: minus `t` minus `s`, `t` minus `s`, `s` minus `t`, `t` plus `s`.
pub open spec fn candidate(aux: AuxiliaryView, idx: int) -> AngleView {
    if idx == 0 {
        aux.t.plus(aux.s).neg()
    } else if idx == 1 {
        aux.t.minus(aux.s)
    } else if idx == 2 {
        aux.s.minus(aux.t)
    } else {
        aux.t.plus(aux.s)
    }
}

/// Among four scores, the place of the highest; of several that are equally
/// high, the first.
pub open spec fn first_best(s0: int, s1: int, s2: int, s3: int) -> int {
    let scores = seq![s0, s1, s2, s3];
    let w1 = if s1 > s0 {
        1int
    } else {
        0int
    };
    let w2 = if s2 > scores[w1] {
        2int
    } else {
        w1
    };
    if s3 > scores[w2] {
        3int
    } else {
        w2
    }
}

/// The rotation angle that explains the observation best, and the direction
/// that it predicts. The four candidates are tried in order and the first of
/// the best is kept; a fifth trial, of the best so far, repeats the winner
/// and changes nothing.
pub open spec fn search(dir: V3, g: GeomView, phi: AngleView, e3: V3, aux: AuxiliaryView) -> Result<
    (AngleView, V3),
    XdsError,
> {
    match trial(dir, g, phi, e3, candidate(aux, 0)) {
        Err(e) => Err(e),
        Ok(t0) => match trial(dir, g, phi, e3, candidate(aux, 1)) {
            Err(e) => Err(e),
            Ok(t1) => match trial(dir, g, phi, e3, candidate(aux, 2)) {
                Err(e) => Err(e),
                Ok(t2) => match trial(dir, g, phi, e3, candidate(aux, 3)) {
                    Err(e) => Err(e),
                    Ok(t3) => {
                        let w = first_best(t0.score, t1.score, t2.score, t3.score);
                        Ok((candidate(aux, w), seq![t0, t1, t2, t3][w].e2))
                    },
                },
            },
        },
    }
}

/// The two direction cosines of the crystal axis in column `i` of the
/// matrix: the axis, brought to length one and turned about the rotation
/// axis by the chosen angle, against the reversed beam and against the
/// predicted direction `e2`.
pub open spec fn axis_cosines(m: Seq<int>, i: int, g: GeomView, chosen: AngleView, e2: V3) -> Result<
    (int, int),
    XdsError,
> {
    match checked_direction(column(m, i)) {
        Err(e) => Err(e),
        Ok(axis) => match rotated(axis, g.rotaxis, chosen) {
            Err(e) => Err(e),
            Ok(turned) => match angle_between(turned, g.dir_beam) {
                Err(e) => Err(e),
                Ok(beam) => match angle_between(turned, e2) {
                    Err(e) => Err(e),
                    Ok(out) => Ok((-beam.cosine, out.cosine)),
                },
            },
        },
    }
}

/// What the geometry of one reflection comes to.
pub struct GeometryView {
    /// For each of the three crystal axes in turn, its cosine against the
    /// reversed beam and its cosine against the predicted direction.
    pub cosines: Seq<int>,
    /// The rotation angle that was chosen.
    pub rotation: AngleView,
    /// The sine of the diffraction angle over the wavelength.
    pub sthl: int,
}

/// The direction cosines of the reflection `d`, with the orientation matrix
/// `m`, the detector `det` and the geometry `g`.
pub open spec fn direction_cosines(m: Seq<int>, d: DatumView, det: DetView, g: GeomView) -> Result<
    GeometryView,
    XdsError,
> {
    match bragg(m, d.h, d.k, d.l, g.lambda) {
        Err(e) => Err(e),
        Ok(b) => match auxiliary(b, g) {
            Err(e) => Err(e),
            Ok(aux) => match detector_offset(d, det, g.dist) {
                Err(e) => Err(e),
                Ok(e3) => match search(b.dir, g, b.phi, e3, aux) {
                    Err(e) => Err(e),
                    Ok((chosen, e2)) => match axis_cosines(m, 0, g, chosen, e2) {
                        Err(e) => Err(e),
                        Ok(c0) => match axis_cosines(m, 1, g, chosen, e2) {
                            Err(e) => Err(e),
                            Ok(c1) => match axis_cosines(m, 2, g, chosen, e2) {
                                Err(e) => Err(e),
                                Ok(c2) => Ok(
                                    GeometryView {
                                        cosines: seq![c0.0, c0.1, c1.0, c1.1, c2.0, c2.1],
                                        rotation: chosen,
                                        sthl: b.sthl,
                                    },
                                ),
                            },
                        },
                    },
                },
            },
        },
    }
}

/// The highest of four scores is at least as high as each of them, and
/// higher than each before it.
pub proof fn lemma_first_best(s0: int, s1: int, s2: int, s3: int)
    ensures
        ({
            let scores = seq![s0, s1, s2, s3];
            let w = first_best(s0, s1, s2, s3);
            &&& 0 <= w < 4
            &&& forall|j: int| 0 <= j < 4 ==> scores[j] <= scores[w]
            &&& forall|j: int| 0 <= j < w ==> scores[j] < scores[w]
        }),
{
}

/// The diffraction angle of one reflection.
struct Bragg {
    dir: XYZ,
    sthl: Fixed,
    sin_theta: Fixed,
    phi: Angle,
}

impl View for Bragg {
    type V = BraggView;

    closed spec fn view(&self) -> BraggView {
        BraggView { dir: self.dir@, sthl: self.sthl@, sin_theta: self.sin_theta@, phi: self.phi@ }
    }
}

/// The two auxiliary angles of one reflection.
struct Auxiliary {
    s: Angle,
    t: Angle,
}

impl View for Auxiliary {
    type V = AuxiliaryView;

    closed spec fn view(&self) -> AuxiliaryView {
        AuxiliaryView { s: self.s@, t: self.t@ }
    }
}

/// The outcome of one trial.
struct Trial {
    score: Fixed,
    e2: XYZ,
}

impl View for Trial {
    type V = TrialView;

    closed spec fn view(&self) -> TrialView {
        TrialView { score: self.score@, e2: self.e2@ }
    }
}

/// The geometry of one reflection: the direction cosines of the three
/// crystal axes, the rotation angle that was chosen, and the sine of the
/// diffraction angle over the wavelength.
#[derive(Clone, Copy, Debug)]
pub struct GeometryResult {
    cosines: [Fixed; 6],
    rotation: Angle,
    sthl: Fixed,
}

/// The raw values of six numbers.
pub open spec fn six_view(c: [Fixed; 6]) -> Seq<int> {
    Seq::new(6, |i: int| c[i]@)
}

impl View for GeometryResult {
    type V = GeometryView;

    closed spec fn view(&self) -> GeometryView {
        GeometryView { cosines: six_view(self.cosines), rotation: self.rotation@, sthl: self.sthl@ }
    }
}

impl GeometryResult {
    /// The six direction cosines: for each crystal axis in turn, its cosine
    /// against the reversed beam and against the predicted direction.
    pub fn cosines(&self) -> (r: [Fixed; 6])
        ensures
            six_view(r) == self@.cosines,
    {
        self.cosines
    }

    /// The rotation angle that was chosen.
    pub fn rotation(&self) -> (r: Angle)
        ensures
            r@ == self@.rotation,
    {
        self.rotation
    }

    /// The sine of the diffraction angle over the wavelength.
    pub fn sthl(&self) -> (r: Fixed)
        ensures
            r@ == self@.sthl,
    {
        self.sthl
    }
}

/// Column `i` of the orientation matrix.
fn column_of(m: &[Fixed; 9], i: usize) -> (r: XYZ)
    requires
        i < 3,
    ensures
        r@ == column(matrix_view(*m), i as int),
{
    XYZ::new(m[i], m[i + 3], m[i + 6])
}

/// The diffraction angle of the reflection `h`, `k`, `l`.
fn bragg_of(m: &[Fixed; 9], h: i32, k: i32, l: i32, lambda: &Fixed) -> (r: Result<Bragg, XdsError>)
    ensures
        viewed(r) == bragg(matrix_view(*m), h as int, k as int, l as int, lambda@),
{
    let a = column_of(m, 0);
    let b = column_of(m, 1);
    let c = column_of(m, 2);
    let mut dir = lattice_vector(h, k, l, &a, &b, &c)?;
    proof {
        lemma_norm_is_isqrt(dir@);
    }
    let length = dir.uvec()?;
    let half = length.raw() / 2;
    let sthl = narrow(half as i128).unwrap();
    let sin_theta = sthl.mul(lambda)?;
    let phi = Angle::from_cosine(&sin_theta);
    Ok(Bragg { dir, sthl, sin_theta, phi })
}

/// The angle whose cosine is `num` over `den`.
fn aux_angle_of(num: i128, den: i128) -> (r: Result<Angle, XdsError>)
    requires
        -10_000_000_000_000_000_000 <= num <= 10_000_000_000_000_000_000,
        -10_000_000_000_000_000_000 <= den <= 10_000_000_000_000_000_000,
    ensures
        viewed(r) == aux_angle(num as int, den as int),
{
    if den == 0 {
        return Err(XdsError::DegenerateGeometry);
    }
    let n = num * 1_000_000_000;
    let q = if den > 0 {
        floor_div(n, den)
    } else {
        floor_div(-n, -den)
    };
    proof {
        lemma_clamped_cosine(q as int);
    }
    let c = clamp_to_unit(q);
    Ok(Angle::from_cosine(&c))
}

/// The raw product of a cosine or sine with another number.
fn bounded_product(unit: &Fixed, b: &Fixed) -> (p: i128)
    requires
        -ONE <= unit@ <= ONE,
    ensures
        p == qmul(unit@, b@),
        -1_000_000_000_000_000_000 <= p <= 1_000_000_000_000_000_000,
{
    let w = wide_product(unit.raw(), b.raw());
    assert(-1_000_000_000_000_000_000_000_000_000 <= w <= 1_000_000_000_000_000_000_000_000_000)
        by (nonlinear_arith)
        requires
            w == unit@ * b@,
            -1_000_000_000 <= unit@ <= 1_000_000_000,
            -1_000_000_000_000_000_000 <= b@ <= 1_000_000_000_000_000_000,
    ;
    floor_div(w, 1_000_000_000)
}

/// The two auxiliary angles of a reflection.
fn auxiliary_of(b: &Bragg, rotaxis: &XYZ, beam: &XYZ, s0r: &[Fixed; 3]) -> (r: Result<
    Auxiliary,
    XdsError,
>)
    ensures
        forall|g: GeomView|
            g.rotaxis == rotaxis@ && g.dir_beam == beam@ && g.s0r == crate::header::triple_view(
                *s0r,
            ) ==> viewed(r) == #[trigger] auxiliary(b@, g),
{
    let rot = b.dir.rad_sin_cos(rotaxis)?;
    let s0 = b.dir.rad_sin_cos(beam)?;
    let between = beam.rad_sin_cos(rotaxis)?;
    let s_num = bounded_product(&rot.cosine(), &between.cosine()) - s0.cosine().raw() as i128;
    let s_den = bounded_product(&rot.sine(), &between.sine());
    let s = aux_angle_of(s_num, s_den)?;
    let t_num = b.sin_theta.raw() as i128 - bounded_product(&rot.cosine(), &s0r[2]);
    let t_den = bounded_product(&rot.sine(), &s0r[1]);
    let t = aux_angle_of(t_num, t_den)?;
    Ok(Auxiliary { s, t })
}

/// The product of `q` with the difference of `a` and `b`, where it fits.
fn scaled_difference(q: &Fixed, a: &Fixed, b: &Fixed) -> (r: Result<Fixed, XdsError>)
    ensures
        crate::fixed::value_of(r) == crate::fixed::checked(qmul(q@, a@ - b@)),
{
    let d: i128 = a.raw() as i128 - b.raw() as i128;
    let f: i128 = q.raw() as i128;
    assert(-2_000_000_000_000_000_000_000_000_000_000_000_000 <= f * d
        <= 2_000_000_000_000_000_000_000_000_000_000_000_000) by (nonlinear_arith)
        requires
            -1_000_000_000_000_000_000 <= f <= 1_000_000_000_000_000_000,
            -2_000_000_000_000_000_000 <= d <= 2_000_000_000_000_000_000,
    ;
    narrow(floor_div(f * d, 1_000_000_000))
}

/// The vector from the sample to the place of observation.
fn detector_offset_of(d: &XDSdatum, header: &XDSheader) -> (r: Result<XYZ, XdsError>)
    ensures
        viewed(r) == detector_offset(d@, header.detector@, header.geometry@.dist),
{
    let det = &header.detector;
    let x = scaled_difference(&det.qx(), &d.xyzd[0], &det.orgx())?;
    let y = scaled_difference(&det.qy(), &d.xyzd[1], &det.orgy())?;
    let ex = det.detx().scale(&x)?;
    let ey = det.dety().scale(&y)?;
    let ez = det.detz().scale(&header.geometry.det_dist())?;
    let exy = ex.add(&ey)?;
    exy.add(&ez)
}

/// The trial of one rotation angle.
fn trial_of(dir: &XYZ, rotaxis: &XYZ, beam: &XYZ, phi: &Angle, e3: &XYZ, v: &Angle) -> (r: Result<
    Trial,
    XdsError,
>)
    ensures
        forall|g: GeomView|
            g.rotaxis == rotaxis@ && g.dir_beam == beam@ ==> viewed(r) == #[trigger] trial(
                dir@,
                g,
                phi@,
                e3@,
                v@,
            ),
{
    let turned = dir.rotate(rotaxis, v)?;
    let w = turned.cross(beam)?;
    let e1 = w.unit()?;
    let e2 = turned.rotate(&e1, phi)?;
    let a = e2.rad_sin_cos(e3)?;
    Ok(Trial { score: a.cosine(), e2 })
}

/// The rotation angle that explains the observation best, and the
/// direction that it predicts.
fn search_of(
    dir: &XYZ,
    rotaxis: &XYZ,
    beam: &XYZ,
    phi: &Angle,
    e3: &XYZ,
    aux: &Auxiliary,
) -> (r: Result<(Angle, XYZ), XdsError>)
    ensures
        forall|g: GeomView|
            g.rotaxis == rotaxis@ && g.dir_beam == beam@ ==> match #[trigger] search(
                dir@,
                g,
                phi@,
                e3@,
                aux@,
            ) {
                Ok((chosen, e2)) => r matches Ok(p) && p.0@ == chosen && p.1@ == e2,
                Err(e) => r matches Err(f) && f == e,
            },
{
    let first = aux.t.plus(&aux.s).neg();
    let second = aux.t.minus(&aux.s);
    let third = aux.s.minus(&aux.t);
    let fourth = aux.t.plus(&aux.s);
    let t0 = trial_of(dir, rotaxis, beam, phi, e3, &first)?;
    let t1 = trial_of(dir, rotaxis, beam, phi, e3, &second)?;
    let t2 = trial_of(dir, rotaxis, beam, phi, e3, &third)?;
    let t3 = trial_of(dir, rotaxis, beam, phi, e3, &fourth)?;
    let mut best = first;
    let mut best_score = t0.score;
    if best_score.lt(&t1.score) {
        best = second;
        best_score = t1.score;
    }
    if best_score.lt(&t2.score) {
        best = third;
        best_score = t2.score;
    }
    if best_score.lt(&t3.score) {
        best = fourth;
    }
    // the fifth candidate is the best so far: it scores as before, and its
    // trial leaves the direction that the winner predicts
    let t4 = trial_of(dir, rotaxis, beam, phi, e3, &best)?;
    Ok((best, t4.e2))
}

/// The two direction cosines of one crystal axis.
fn axis_cosines_of(
    m: &[Fixed; 9],
    i: usize,
    rotaxis: &XYZ,
    beam: &XYZ,
    chosen: &Angle,
    e2: &XYZ,
) -> (r: Result<(Fixed, Fixed), XdsError>)
    requires
        i < 3,
    ensures
        forall|g: GeomView|
            g.rotaxis == rotaxis@ && g.dir_beam == beam@ ==> match #[trigger] axis_cosines(
                matrix_view(*m),
                i as int,
                g,
                chosen@,
                e2@,
            ) {
                Ok(c) => r matches Ok(p) && p.0@ == c.0 && p.1@ == c.1,
                Err(e) => r matches Err(f) && f == e,
            },
{
    let axis = column_of(m, i).unit()?;
    let turned = axis.rotate(rotaxis, chosen)?;
    let against_beam = turned.rad_sin_cos(beam)?;
    let against_e2 = turned.rad_sin_cos(e2)?;
    Ok((against_beam.cosine().neg(), against_e2.cosine()))
}

impl XDSdatum {
    /// A record with nothing measured: all numbers zero, the uncertainty of
    /// the intensity minus one.
    pub fn new() -> (r: XDSdatum)
        ensures
            r@ == (DatumView {
                h: 0,
                k: 0,
                l: 0,
                intensity: 0,
                sigma: -ONE,
                xd: 0,
                yd: 0,
                zd: 0,
                rlp: 0,
                peak: 0,
                corr: 0,
                psi: 0,
            }),
    {
        let zero = Fixed::zero();
        XDSdatum {
            h: 0,
            k: 0,
            l: 0,
            I: zero,
            sigI: Fixed::one().neg(),
            xyzd: [zero, zero, zero],
            rlp: zero,
            peak: zero,
            corr: zero,
            psi: zero,
        }
    }

    /// A reflection with the given indices, intensity, uncertainty and place
    /// of observation; the other numbers are zero.
    pub fn observed(h: i32, k: i32, l: i32, intensity: Fixed, sigma: Fixed, xyzd: [Fixed; 3]) -> (r:
        XDSdatum)
        ensures
            r@ == (DatumView {
                h: h as int,
                k: k as int,
                l: l as int,
                intensity: intensity@,
                sigma: sigma@,
                xd: xyzd[0]@,
                yd: xyzd[1]@,
                zd: xyzd[2]@,
                rlp: 0,
                peak: 0,
                corr: 0,
                psi: 0,
            }),
    {
        let zero = Fixed::zero();
        XDSdatum {
            h,
            k,
            l,
            I: intensity,
            sigI: sigma,
            xyzd,
            rlp: zero,
            peak: zero,
            corr: zero,
            psi: zero,
        }
    }

    /// The same reflection with the four numbers that the integration
    /// reports with it.
    pub fn with_statistics(self, rlp: Fixed, peak: Fixed, corr: Fixed, psi: Fixed) -> (r: XDSdatum)
        ensures
            r@ == (DatumView { rlp: rlp@, peak: peak@, corr: corr@, psi: psi@, ..self@ }),
    {
        XDSdatum { rlp, peak, corr, psi, ..self }
    }

    /// The first index.
    pub fn h(&self) -> (r: i32)
        ensures
            r == self@.h,
    {
        self.h
    }

    /// The second index.
    pub fn k(&self) -> (r: i32)
        ensures
            r == self@.k,
    {
        self.k
    }

    /// The third index.
    pub fn l(&self) -> (r: i32)
        ensures
            r == self@.l,
    {
        self.l
    }

    /// The intensity.
    #[allow(non_snake_case)]
    pub fn I(&self) -> (r: Fixed)
        ensures
            r@ == self@.intensity,
    {
        self.I
    }

    /// The uncertainty of the intensity.
    #[allow(non_snake_case)]
    pub fn sigI(&self) -> (r: Fixed)
        ensures
            r@ == self@.sigma,
    {
        self.sigI
    }

    /// Where on the detector's first axis the reflection was observed, in
    /// pixels.
    pub fn xd(&self) -> (r: Fixed)
        ensures
            r@ == self@.xd,
    {
        self.xyzd[0]
    }

    /// Where on the detector's second axis the reflection was observed, in
    /// pixels.
    pub fn yd(&self) -> (r: Fixed)
        ensures
            r@ == self@.yd,
    {
        self.xyzd[1]
    }

    /// The frame at which the reflection was observed.
    pub fn zd(&self) -> (r: Fixed)
        ensures
            r@ == self@.zd,
    {
        self.xyzd[2]
    }

    /// The direction cosines of the reflection, with the orientation matrix
    /// `matrix_u` and the experiment that `header` describes. A reflection
    /// whose geometry is degenerate, as one along the rotation axis, is
    /// refused.
    pub fn cosines(&self, matrix_u: &[Fixed; 9], header: &XDSheader) -> (r: Result<
        GeometryResult,
        XdsError,
    >)
        ensures
            viewed(r) == direction_cosines(
                matrix_view(*matrix_u),
                self@,
                header.detector@,
                header.geometry@,
            ),
    {
        let geometry = &header.geometry;
        let rotaxis = geometry.rotaxis();
        let beam = geometry.dir_beam();
        let b = bragg_of(matrix_u, self.h, self.k, self.l, &geometry.lambda())?;
        let aux = auxiliary_of(&b, &rotaxis, &beam, &geometry.S0R())?;
        let e3 = detector_offset_of(self, header)?;
        let (chosen, e2) = search_of(&b.dir, &rotaxis, &beam, &b.phi, &e3, &aux)?;
        let c0 = axis_cosines_of(matrix_u, 0, &rotaxis, &beam, &chosen, &e2)?;
        let c1 = axis_cosines_of(matrix_u, 1, &rotaxis, &beam, &chosen, &e2)?;
        let c2 = axis_cosines_of(matrix_u, 2, &rotaxis, &beam, &chosen, &e2)?;
        let cosines = [c0.0, c0.1, c1.0, c1.1, c2.0, c2.1];
        proof {
            assert(six_view(cosines) =~= seq![c0.0@, c0.1@, c1.0@, c1.1@, c2.0@, c2.1@]);
        }
        Ok(GeometryResult { cosines, rotation: chosen, sthl: b.sthl })
    }
}

/// The search keeps the first of the best: where it succeeds, the angle it
/// chooses is one of the four candidates, the direction it returns is the
/// one that this candidate predicts, no candidate scores higher, and every
/// candidate tried before it scores lower.
pub proof fn lemma_search_keeps_first_best(
    dir: V3,
    g: GeomView,
    phi: AngleView,
    e3: V3,
    aux: AuxiliaryView,
)
    requires
        search(dir, g, phi, e3, aux) is Ok,
    ensures
        exists|w: int|
            0 <= w < 4 && #[trigger] trial(dir, g, phi, e3, candidate(aux, w)) is Ok && search(
                dir,
                g,
                phi,
                e3,
                aux,
            ).unwrap() == (candidate(aux, w), trial(dir, g, phi, e3, candidate(aux, w)).unwrap().e2)
                && (forall|j: int|
                0 <= j < 4 ==> (#[trigger] trial(dir, g, phi, e3, candidate(aux, j))) is Ok
                    && trial(dir, g, phi, e3, candidate(aux, j)).unwrap().score <= trial(
                    dir,
                    g,
                    phi,
                    e3,
                    candidate(aux, w),
                ).unwrap().score) && (forall|j: int|
                0 <= j < w ==> (#[trigger] trial(dir, g, phi, e3, candidate(aux, j))).unwrap().score
                    < trial(dir, g, phi, e3, candidate(aux, w)).unwrap().score),
{
    let t0 = trial(dir, g, phi, e3, candidate(aux, 0)).unwrap();
    let t1 = trial(dir, g, phi, e3, candidate(aux, 1)).unwrap();
    let t2 = trial(dir, g, phi, e3, candidate(aux, 2)).unwrap();
    let t3 = trial(dir, g, phi, e3, candidate(aux, 3)).unwrap();
    let w = first_best(t0.score, t1.score, t2.score, t3.score);
    lemma_first_best(t0.score, t1.score, t2.score, t3.score);
    let scores = seq![t0.score, t1.score, t2.score, t3.score];
    assert forall|j: int| 0 <= j < 4 implies (#[trigger] trial(dir, g, phi, e3, candidate(aux, j)))
        is Ok && trial(dir, g, phi, e3, candidate(aux, j)).unwrap().score == scores[j] by {
        if j == 0 {
        } else if j == 1 {
        } else if j == 2 {
        } else {
            assert(candidate(aux, j) == candidate(aux, 3));
        }
    }
    assert(seq![t0, t1, t2, t3][w].e2 == trial(dir, g, phi, e3, candidate(aux, w)).unwrap().e2);
    assert(trial(dir, g, phi, e3, candidate(aux, w)) is Ok);
}

/// Every direction cosine lies between minus one and one.
pub proof fn lemma_axis_cosines_bounded(m: Seq<int>, i: int, g: GeomView, chosen: AngleView, e2: V3)
    requires
        axis_cosines(m, i, g, chosen, e2) is Ok,
    ensures
        -ONE <= axis_cosines(m, i, g, chosen, e2).unwrap().0 <= ONE,
        -ONE <= axis_cosines(m, i, g, chosen, e2).unwrap().1 <= ONE,
{
    let axis = checked_direction(column(m, i)).unwrap();
    let turned = rotated(axis, g.rotaxis, chosen).unwrap();
    crate::xyz::lemma_angle_between_bounded(turned, g.dir_beam);
    crate::xyz::lemma_angle_between_bounded(turned, e2);
}

} // verus!
