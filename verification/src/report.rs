//! The numbers that the reports are made of: the scale of a data set, the
//! scaled record of a reflection, the range of resolution, and the leading
//! digit of an uncertainty.

use crate::cell::{d_star_squared, reciprocal_d_spacing, Basis};
use crate::datum::{six_view, DatumView, GeometryResult, GeometryView, XDSdatum};
use crate::error::XdsError;
use crate::fixed::{checked_qsqrt, fits, floor_div, narrow, qdiv, qmul, Fixed, ONE};
use crate::text::pow10;
use crate::xyz::XYZ;
use vstd::prelude::*;

verus! {

/// `places` and `leading` describe the precision of the raw value `x`: for
/// an `x` above zero, `places` is the least number of decimal places by
/// which `x` has to be shifted to reach one, and `leading` is the whole part
/// of the shifted value; for any other `x` both are zero.
pub open spec fn is_precision(x: int, places: nat, leading: int) -> bool {
    if x <= 0 {
        places == 0 && leading == 0
    } else {
        &&& x * pow10(places) >= ONE
        &&& places > 0 ==> x * pow10((places - 1) as nat) < ONE
        &&& leading == (x * pow10(places)) / (ONE as int)
    }
}

/// The precision of an uncertainty: how many decimal places come before its
/// first digit that counts, and that digit.
pub fn precision(x: &Fixed) -> (r: (usize, i32))
    ensures
        is_precision(x@, r.0 as nat, r.1 as int),
{
    let raw = x.raw();
    if raw <= 0 {
        return (0, 0);
    }
    let mut v: i64 = raw;
    let mut places: usize = 0;
    while v < ONE
        invariant
            0 < v <= 1_000_000_000_000_000_000,
            v == raw * pow10(places as nat),
            places < v,
            places > 0 ==> raw * pow10((places - 1) as nat) < ONE,
        decreases 1_000_000_000 - places,
    {
        assert(raw * (10 * pow10(places as nat)) == 10 * (raw * pow10(places as nat)))
            by (nonlinear_arith);
        v = v * 10;
        places = places + 1;
    }
    (places, (v / ONE) as i32)
}

/// What a reflection's intensity or its uncertainty asks of the scale: the
/// value itself, or ten times its magnitude where it is negative.
pub open spec fn scale_of(x: int) -> int {
    if x >= 0 {
        x
    } else {
        -10 * x
    }
}

/// The larger of what intensity and uncertainty of one record ask of the
/// scale.
pub open spec fn record_scale(d: DatumView) -> int {
    if scale_of(d.intensity) >= scale_of(d.sigma) {
        scale_of(d.intensity)
    } else {
        scale_of(d.sigma)
    }
}

/// The views of a list of records.
pub open spec fn datum_views(data: Seq<XDSdatum>) -> Seq<DatumView> {
    Seq::new(data.len(), |i: int| data[i]@)
}

/// The largest of what the first `n` records ask of the scale; zero for no
/// record.
pub open spec fn scale_max(data: Seq<DatumView>, n: nat) -> int
    decreases n,
{
    if n == 0 {
        0
    } else if n == 1 {
        record_scale(data[0])
    } else {
        let rest = scale_max(data, (n - 1) as nat);
        if record_scale(data[n - 1]) > rest {
            record_scale(data[n - 1])
        } else {
            rest
        }
    }
}

/// Each of the first `n` records asks for a scale that fits.
pub open spec fn scales_fit(data: Seq<DatumView>, n: nat) -> bool {
    forall|i: int| 0 <= i < n ==> fits(#[trigger] record_scale(data[i]))
}

/// The scale of a data set: the largest value that any intensity or
/// uncertainty in it asks for. An empty data set has none.
pub open spec fn data_scale(data: Seq<DatumView>) -> Result<int, XdsError> {
    if data.len() == 0 {
        Err(XdsError::InsufficientData)
    } else if !scales_fit(data, data.len()) {
        Err(XdsError::OutOfRange)
    } else {
        Ok(scale_max(data, data.len()))
    }
}

/// The scale of a data set is asked for by one of its records and is at
/// least what every record asks for.
pub proof fn lemma_scale_is_largest(data: Seq<DatumView>, n: nat)
    requires
        0 < n <= data.len(),
    ensures
        exists|i: int| 0 <= i < n && record_scale(data[i]) == scale_max(data, n),
        forall|j: int| 0 <= j < n ==> record_scale(data[j]) <= scale_max(data, n),
    decreases n,
{
    if n > 1 {
        lemma_scale_is_largest(data, (n - 1) as nat);
        let rest = scale_max(data, (n - 1) as nat);
        if record_scale(data[n - 1]) > rest {
            assert(record_scale(data[n - 1]) == scale_max(data, n));
        } else {
            let i = choose|i: int| 0 <= i < n - 1 && record_scale(data[i]) == rest;
            assert(record_scale(data[i]) == scale_max(data, n));
        }
    } else {
        assert(record_scale(data[0]) == scale_max(data, n));
    }
}

/// What an intensity or uncertainty asks of the scale.
fn scale_of_value(x: &Fixed) -> (r: i128)
    ensures
        r == scale_of(x@),
        0 <= r,
{
    let raw: i128 = x.raw() as i128;
    if raw >= 0 {
        raw
    } else {
        let tenfold: i128 = 10 * raw;
        0 - tenfold
    }
}

/// The scale of a data set.
pub fn scale_of_data(data: &Vec<XDSdatum>) -> (r: Result<Fixed, XdsError>)
    ensures
        crate::fixed::value_of(r) == data_scale(datum_views(data@)),
{
    if data.len() == 0 {
        return Err(XdsError::InsufficientData);
    }
    let ghost views = datum_views(data@);
    let mut best: i128 = 0;
    let mut i: usize = 0;
    while i < data.len()
        invariant
            i <= data.len(),
            views == datum_views(data@),
            scales_fit(views, i as nat),
            best == scale_max(views, i as nat),
            fits(best as int),
            0 <= best,
        decreases data.len() - i,
    {
        assert(views[i as int] == data[i as int]@);
        let a = scale_of_value(&data[i].I());
        let b = scale_of_value(&data[i].sigI());
        let s = if a >= b {
            a
        } else {
            b
        };
        if s > 1_000_000_000_000_000_000 {
            assert(!fits(record_scale(views[i as int])));
            return Err(XdsError::OutOfRange);
        }
        if i == 0 || s > best {
            best = s;
        }
        i = i + 1;
    }
    narrow(best)
}

/// One reflection as the scaled data file lists it.
#[derive(Clone, Copy, Debug)]
pub struct SadRecord {
    pub h: i32,
    pub k: i32,
    pub l: i32,
    pub intensity: Fixed,
    pub sigma: Fixed,
    pub cosines: [Fixed; 6],
    pub xd: Fixed,
    pub yd: Fixed,
    pub zd: Fixed,
    pub sthl: i16,
}

/// What a scaled record holds.
pub struct SadView {
    pub h: int,
    pub k: int,
    pub l: int,
    pub intensity: int,
    pub sigma: int,
    pub cosines: Seq<int>,
    pub xd: int,
    pub yd: int,
    pub zd: int,
    pub sthl: int,
}

impl View for SadRecord {
    type V = SadView;

    open spec fn view(&self) -> SadView {
        SadView {
            h: self.h as int,
            k: self.k as int,
            l: self.l as int,
            intensity: self.intensity@,
            sigma: self.sigma@,
            cosines: six_view(self.cosines),
            xd: self.xd@,
            yd: self.yd@,
            zd: self.zd@,
            sthl: self.sthl as int,
        }
    }
}

/// Ten thousand times the raw value `sthl`, rounded to the nearest whole
/// number and held at the largest that sixteen bits take.
pub open spec fn sthl_units(sthl: int) -> int {
    let rounded = (sthl * 10_000 + ONE / 2) / (ONE as int);
    if rounded > 32_767 {
        32_767
    } else {
        rounded
    }
}

/// A detector position in pixels brought to a detector of 512 pixels.
pub open spec fn on_512(position: int, pixels: int) -> int {
    (512 * position) / pixels
}

/// The scaled record of the reflection `d` with the geometry `g`, on a
/// detector of `nx` by `ny` pixels, in a data set whose scale is `dscale`:
/// intensity and uncertainty are multiplied by 9999 over the scale, the
/// place on the detector is brought to 512 pixels each way.
pub open spec fn sad_record(d: DatumView, g: GeometryView, nx: int, ny: int, dscale: int) -> Result<
    SadView,
    XdsError,
> {
    let factor = qdiv(9_999 * ONE, dscale);
    let intensity = qmul(factor, d.intensity);
    let sigma = qmul(factor, d.sigma);
    if dscale == 0 || nx == 0 || ny == 0 || g.sthl < 0 {
        Err(XdsError::DegenerateGeometry)
    } else if !fits(factor) || !fits(intensity) || !fits(sigma) || !fits(on_512(d.xd, nx))
        || !fits(on_512(d.yd, ny)) {
        Err(XdsError::OutOfRange)
    } else {
        Ok(
            SadView {
                h: d.h,
                k: d.k,
                l: d.l,
                intensity,
                sigma,
                cosines: g.cosines,
                xd: on_512(d.xd, nx),
                yd: on_512(d.yd, ny),
                zd: d.zd,
                sthl: sthl_units(g.sthl),
            },
        )
    }
}

/// The scaled record of one reflection.
pub fn scaled_record(d: &XDSdatum, g: &GeometryResult, nx: u16, ny: u16, dscale: &Fixed) -> (r:
    Result<SadRecord, XdsError>)
    ensures
        crate::error::viewed(r) == sad_record(d@, g@, nx as int, ny as int, dscale@),
{
    let half = g.sthl().raw();
    if dscale.is_zero() || nx == 0 || ny == 0 || half < 0 {
        return Err(XdsError::DegenerateGeometry);
    }
    let top = Fixed::from_int(9_999).unwrap();
    let factor = top.div(dscale)?;
    let intensity = factor.mul(&d.I())?;
    let sigma = factor.mul(&d.sigI())?;
    let xd = narrow(floor_div(512 * (d.xd().raw() as i128), nx as i128))?;
    let yd = narrow(floor_div(512 * (d.yd().raw() as i128), ny as i128))?;
    let rounded: i128 = ((half as i128) * 10_000 + 500_000_000) / 1_000_000_000;
    let sthl: i16 = if rounded > 32_767 {
        32_767
    } else {
        rounded as i16
    };
    Ok(
        SadRecord {
            h: d.h(),
            k: d.k(),
            l: d.l(),
            intensity,
            sigma,
            cosines: g.cosines(),
            xd,
            yd,
            zd: d.zd(),
            sthl,
        },
    )
}

/// The squares of the distances of the first `n` reflections from the
/// origin of reciprocal space all exist.
pub open spec fn spacings_exist(hkl: Seq<(i32, i32, i32)>, s: Basis, n: nat) -> bool {
    forall|i: int|
        0 <= i < n ==> (#[trigger] d_star_squared(
            hkl[i].0 as int,
            hkl[i].1 as int,
            hkl[i].2 as int,
            s,
        )) is Ok
}

/// The square of the distance of reflection `i` from the origin.
pub open spec fn spacing(hkl: Seq<(i32, i32, i32)>, s: Basis, i: int) -> int {
    d_star_squared(hkl[i].0 as int, hkl[i].1 as int, hkl[i].2 as int, s).unwrap()
}

/// `lo` and `hi` are the smallest and the largest squared distance among
/// the first `n` reflections.
pub open spec fn is_range(hkl: Seq<(i32, i32, i32)>, s: Basis, n: nat, lo: int, hi: int) -> bool {
    &&& exists|i: int| 0 <= i < n && spacing(hkl, s, i) == lo
    &&& exists|i: int| 0 <= i < n && spacing(hkl, s, i) == hi
    &&& forall|j: int| 0 <= j < n ==> lo <= #[trigger] spacing(hkl, s, j) <= hi
}

/// The range of resolution of a list of reflections in the reciprocal cell
/// with the axes `a`, `b`, `c`: the smallest and the largest distance of a
/// reflection from the origin of reciprocal space. No reflections have no
/// range; a reflection too far out to be held is an error.
pub fn resolution_range(hkl: &Vec<(i32, i32, i32)>, a: &XYZ, b: &XYZ, c: &XYZ) -> (r: Result<
    (Fixed, Fixed),
    XdsError,
>)
    ensures
        hkl@.len() == 0 ==> r == Err::<(Fixed, Fixed), XdsError>(XdsError::InsufficientData),
        hkl@.len() > 0 && !spacings_exist(hkl@, Basis { a: a@, b: b@, c: c@ }, hkl@.len()) ==> r
            == Err::<(Fixed, Fixed), XdsError>(XdsError::OutOfRange),
        hkl@.len() > 0 && spacings_exist(hkl@, Basis { a: a@, b: b@, c: c@ }, hkl@.len()) ==> r
            is Ok && exists|lo: int, hi: int|
            #![auto]
            is_range(hkl@, Basis { a: a@, b: b@, c: c@ }, hkl@.len(), lo, hi) && checked_qsqrt(lo)
                == Ok::<int, XdsError>(r.unwrap().0@) && checked_qsqrt(hi) == Ok::<int, XdsError>(
                r.unwrap().1@,
            ),
{
    if hkl.len() == 0 {
        return Err(XdsError::InsufficientData);
    }
    let ghost s = Basis { a: a@, b: b@, c: c@ };
    let mut lo = Fixed::zero();
    let mut hi = Fixed::zero();
    let mut i: usize = 0;
    while i < hkl.len()
        invariant
            i <= hkl.len(),
            s == (Basis { a: a@, b: b@, c: c@ }),
            spacings_exist(hkl@, s, i as nat),
            i > 0 ==> is_range(hkl@, s, i as nat, lo@, hi@),
        decreases hkl.len() - i,
    {
        let (h, k, l) = hkl[i];
        let d = match reciprocal_d_spacing(h, k, l, a, b, c) {
            Ok(d) => d,
            Err(e) => {
                assert(d_star_squared(
                    hkl@[i as int].0 as int,
                    hkl@[i as int].1 as int,
                    hkl@[i as int].2 as int,
                    s,
                ) is Err);
                return Err(e);
            },
        };
        assert(spacing(hkl@, s, i as int) == d@);
        let ghost old_lo = lo@;
        let ghost old_hi = hi@;
        if i == 0 || d.lt(&lo) {
            lo = d;
        }
        if i == 0 || hi.lt(&d) {
            hi = d;
        }
        proof {
            if i > 0 {
                let wl = choose|j: int| 0 <= j < i && spacing(hkl@, s, j) == old_lo;
                let wh = choose|j: int| 0 <= j < i && spacing(hkl@, s, j) == old_hi;
                let nl = if d@ < old_lo {
                    i as int
                } else {
                    wl
                };
                let nh = if old_hi < d@ {
                    i as int
                } else {
                    wh
                };
                assert(spacing(hkl@, s, nl) == lo@);
                assert(spacing(hkl@, s, nh) == hi@);
            } else {
                assert(spacing(hkl@, s, 0) == lo@);
            }
        }
        i = i + 1;
    }
    proof {
        let j = choose|j: int| 0 <= j < hkl@.len() && spacing(hkl@, s, j) == lo@;
        lemma_spacing_not_negative(hkl@[j].0 as int, hkl@[j].1 as int, hkl@[j].2 as int, s);
        let j = choose|j: int| 0 <= j < hkl@.len() && spacing(hkl@, s, j) == hi@;
        lemma_spacing_not_negative(hkl@[j].0 as int, hkl@[j].1 as int, hkl@[j].2 as int, s);
    }
    let low = lo.sqrt()?;
    let high = hi.sqrt()?;
    Ok((low, high))
}

/// The square of a distance is not negative.
proof fn lemma_spacing_not_negative(h: int, k: int, l: int, s: Basis)
    requires
        d_star_squared(h, k, l, s) is Ok,
    ensures
        d_star_squared(h, k, l, s).unwrap() >= 0,
{
    let p = crate::cell::lattice_point(h, k, l, s);
    assert(p.dot_wide(p) >= 0) by (nonlinear_arith)
        requires
            p.dot_wide(p) == p.x * p.x + p.y * p.y + p.z * p.z,
    ;
}

} // verus!
