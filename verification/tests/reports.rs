use xds_geometry::angle::Angle;
use xds_geometry::cell::{abc2vector, rec_cell, U_AB};
use xds_geometry::datum::XDSdatum;
use xds_geometry::error::XdsError;
use xds_geometry::fixed::{Fixed, LIMIT, ONE};
use xds_geometry::header::{Det, Geom, XDSheader};
use xds_geometry::report::{precision, resolution_range, scale_of_data, scaled_record};
use xds_geometry::xyz::XYZ;

fn raw(x: i64) -> Fixed {
    Fixed::from_raw(x).unwrap()
}

fn whole(x: i64, y: i64, z: i64) -> XYZ {
    XYZ::new(raw(x * ONE), raw(y * ONE), raw(z * ONE))
}

fn record(intensity: i64, sigma: i64) -> XDSdatum {
    XDSdatum::observed(1, 0, 0, raw(intensity), raw(sigma), [raw(256 * ONE), raw(64 * ONE), raw(7 * ONE)])
}

#[test]
fn precision_of_uncertainties() {
    assert_eq!(precision(&raw(2_000_000)), (3, 2));
    assert_eq!(precision(&raw(12_300_000)), (2, 1));
    assert_eq!(precision(&raw(999_999_999)), (1, 9));
    assert_eq!(precision(&raw(100_000_000)), (1, 1));
    assert_eq!(precision(&raw(1)), (9, 1));
    assert_eq!(precision(&raw(ONE)), (0, 1));
    assert_eq!(precision(&raw(5_700_000_000)), (0, 5));
    assert_eq!(precision(&raw(LIMIT)), (0, 1_000_000_000));
    assert_eq!(precision(&raw(0)), (0, 0));
    assert_eq!(precision(&raw(-ONE)), (0, 0));
}

#[test]
fn scale_is_the_largest_demand() {
    let data = vec![record(5 * ONE, ONE), record(3 * ONE, 7 * ONE), record(2 * ONE, ONE)];
    assert_eq!(scale_of_data(&data).unwrap().raw(), 7 * ONE);
    // a negative intensity counts ten times
    let data = vec![record(5 * ONE, ONE), record(-2 * ONE, ONE)];
    assert_eq!(scale_of_data(&data).unwrap().raw(), 20 * ONE);
    let data = vec![record(-ONE, -3 * ONE)];
    assert_eq!(scale_of_data(&data).unwrap().raw(), 30 * ONE);
    let data = vec![record(0, 0)];
    assert_eq!(scale_of_data(&data).unwrap().raw(), 0);
}

#[test]
fn scale_of_nothing() {
    assert_eq!(scale_of_data(&Vec::new()).err(), Some(XdsError::InsufficientData));
}

#[test]
fn scale_out_of_range() {
    let data = vec![record(ONE, ONE), record(-LIMIT / 10 - 1, ONE)];
    assert_eq!(scale_of_data(&data).err(), Some(XdsError::OutOfRange));
    let data = vec![record(-LIMIT / 10, ONE)];
    assert_eq!(scale_of_data(&data).unwrap().raw(), LIMIT);
}

fn geometry() -> (XDSheader, [Fixed; 9]) {
    let right = Angle::new(raw(0), raw(ONE)).unwrap();
    let ten = raw(10 * ONE);
    let (a, b, c) = abc2vector(&ten, &ten, &ten, &right, &right, &right).unwrap();
    let u = U_AB(&a, &b, &c).unwrap();
    let detector = Det::new(
        String::new(),
        &whole(1, 0, 0),
        &whole(0, 1, 0),
        1024,
        256,
        raw(75_000_000),
        raw(75_000_000),
        raw(256 * ONE),
        raw(64 * ONE),
    )
    .unwrap();
    let geometry =
        Geom::new(whole(0, 1, 0), whole(0, 0, 1), raw(100 * ONE), raw(ONE), [raw(0), raw(ONE), raw(0)]);
    let header = XDSheader {
        name_template: String::new(),
        oscrange: raw(ONE / 2),
        drange: [1, 1000],
        phi0: raw(0),
        frameno0: 1,
        dmin: raw(840_000_000),
        dmax: raw(999_900_000_000),
        sg_number: 0,
        cell: [ten, ten, ten, raw(90 * ONE), raw(90 * ONE), raw(90 * ONE)],
        vec_a: a,
        vec_b: b,
        vec_c: c,
        detector,
        geometry,
    };
    (header, u)
}

#[test]
fn scaled_record_of_a_reflection() {
    let (header, u) = geometry();
    let d = record(5 * ONE, -ONE);
    let g = d.cosines(&u, &header).unwrap();
    // the scale is 10: the factor is 999.9
    let r = scaled_record(&d, &g, 1024, 256, &raw(10 * ONE)).unwrap();
    assert_eq!((r.h, r.k, r.l), (1, 0, 0));
    assert_eq!(r.intensity.raw(), 4_999_500_000_000);
    assert_eq!(r.sigma.raw(), -999_900_000_000);
    // 512 * 256 / 1024 and 512 * 64 / 256
    assert_eq!(r.xd.raw(), 128 * ONE);
    assert_eq!(r.yd.raw(), 128 * ONE);
    assert_eq!(r.zd.raw(), 7 * ONE);
    // sin(theta) / lambda = 0.05
    assert_eq!(r.sthl, 500);
    let got: Vec<i64> = r.cosines.iter().map(|f| f.raw()).collect();
    let expected: Vec<i64> = g.cosines().iter().map(|f| f.raw()).collect();
    assert_eq!(got, expected);
}

#[test]
fn scaled_record_needs_a_scale_and_a_detector() {
    let (header, u) = geometry();
    let d = record(5 * ONE, ONE);
    let g = d.cosines(&u, &header).unwrap();
    assert_eq!(scaled_record(&d, &g, 1024, 256, &raw(0)).err(), Some(XdsError::DegenerateGeometry));
    assert_eq!(scaled_record(&d, &g, 0, 256, &raw(ONE)).err(), Some(XdsError::DegenerateGeometry));
    assert_eq!(scaled_record(&d, &g, 1024, 0, &raw(ONE)).err(), Some(XdsError::DegenerateGeometry));
    // a scale so small that the factor does not fit
    assert_eq!(scaled_record(&d, &g, 1024, 256, &raw(1)).err(), Some(XdsError::OutOfRange));
}

#[test]
fn resolution_of_a_cubic_cell() {
    let (a, b, c) = rec_cell(&whole(10, 0, 0), &whole(0, 10, 0), &whole(0, 0, 10)).unwrap();
    let hkl = vec![(1, 1, 1), (1, 0, 0), (2, 0, 0), (0, -1, 1)];
    let (lo, hi) = resolution_range(&hkl, &a, &b, &c).unwrap();
    assert_eq!(lo.raw(), 100_000_000);
    assert_eq!(hi.raw(), 200_000_000);
    let (lo, hi) = resolution_range(&vec![(3, 4, 0)], &a, &b, &c).unwrap();
    assert_eq!((lo.raw(), hi.raw()), (500_000_000, 500_000_000));
}

#[test]
fn resolution_of_nothing() {
    let (a, b, c) = rec_cell(&whole(10, 0, 0), &whole(0, 10, 0), &whole(0, 0, 10)).unwrap();
    assert_eq!(resolution_range(&Vec::new(), &a, &b, &c).err(), Some(XdsError::InsufficientData));
}

#[test]
fn resolution_out_of_range() {
    let (a, b, c) = rec_cell(&whole(10, 0, 0), &whole(0, 10, 0), &whole(0, 0, 10)).unwrap();
    let hkl = vec![(1, 0, 0), (i32::MAX, 0, 0)];
    assert_eq!(resolution_range(&hkl, &a, &b, &c).err(), Some(XdsError::OutOfRange));
}
