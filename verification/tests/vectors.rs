use xds_geometry::angle::Angle;
use xds_geometry::error::XdsError;
use xds_geometry::fixed::{Fixed, LIMIT, ONE};
use xds_geometry::xyz::XYZ;

fn raw(x: i64) -> Fixed {
    Fixed::from_raw(x).unwrap()
}

fn vec3(x: i64, y: i64, z: i64) -> XYZ {
    XYZ::new(raw(x), raw(y), raw(z))
}

fn whole(x: i64, y: i64, z: i64) -> XYZ {
    vec3(x * ONE, y * ONE, z * ONE)
}

fn parts(v: &XYZ) -> (i64, i64, i64) {
    (v.x().raw(), v.y().raw(), v.z().raw())
}

#[test]
fn components() {
    let v = vec3(1, -2, 3);
    assert_eq!(parts(&v), (1, -2, 3));
}

#[test]
fn sum_and_difference() {
    let a = whole(1, 2, 3);
    let b = whole(-4, 5, 6);
    assert_eq!(parts(&a.add(&b).unwrap()), (-3 * ONE, 7 * ONE, 9 * ONE));
    assert_eq!(parts(&a.sub(&b).unwrap()), (5 * ONE, -3 * ONE, -3 * ONE));
    assert_eq!(vec3(LIMIT, 0, 0).add(&vec3(1, 0, 0)).err(), Some(XdsError::OutOfRange));
    assert_eq!(vec3(0, 0, -LIMIT).sub(&vec3(0, 0, 1)).err(), Some(XdsError::OutOfRange));
}

#[test]
fn scalar_product() {
    let a = whole(1, 2, 3);
    let b = whole(-4, 5, 6);
    assert_eq!(a.dot(&b).unwrap().raw(), 24 * ONE);
    assert_eq!(vec3(1, 0, 0).dot(&vec3(-1, 0, 0)).unwrap().raw(), -1);
    assert_eq!(vec3(LIMIT, 0, 0).dot(&vec3(LIMIT, 0, 0)).err(), Some(XdsError::OutOfRange));
}

#[test]
fn vector_product() {
    let x = whole(1, 0, 0);
    let y = whole(0, 1, 0);
    let z = whole(0, 0, 1);
    assert_eq!(parts(&x.cross(&y).unwrap()), parts(&z));
    assert_eq!(parts(&y.cross(&z).unwrap()), parts(&x));
    assert_eq!(parts(&z.cross(&x).unwrap()), parts(&y));
    assert_eq!(parts(&y.cross(&x).unwrap()), (0, 0, -ONE));
    let a = whole(1, 2, 3);
    let b = whole(-4, 5, 6);
    assert_eq!(parts(&a.cross(&b).unwrap()), (-3 * ONE, -18 * ONE, 13 * ONE));
}

#[test]
fn vector_product_is_at_right_angles_to_its_factors() {
    let a = vec3(1_234_567_891, -2_345_678_912, 3_456_789_123);
    let b = vec3(-987_654_321, 876_543_219, 765_432_198);
    let c = a.cross(&b).unwrap();
    // within rounding: the bound is the taxicab length of the factor
    assert!(c.dot(&a).unwrap().raw().abs() <= 8);
    assert!(c.dot(&b).unwrap().raw().abs() <= 3);
    // and exactly where nothing is rounded
    let p = whole(1, 2, 3).cross(&whole(-4, 5, 6)).unwrap();
    assert_eq!(p.dot(&whole(1, 2, 3)).unwrap().raw(), 0);
    assert_eq!(p.dot(&whole(-4, 5, 6)).unwrap().raw(), 0);
}

#[test]
fn parallel_vectors_have_no_vector_product() {
    let a = whole(1, 2, 3);
    assert_eq!(parts(&a.cross(&a.times(2).unwrap()).unwrap()), (0, 0, 0));
}

#[test]
fn scaling() {
    let a = whole(1, -2, 3);
    assert_eq!(parts(&a.scale(&raw(ONE / 2)).unwrap()), (ONE / 2, -ONE, 3 * ONE / 2));
    assert_eq!(parts(&a.times(-3).unwrap()), (-3 * ONE, 6 * ONE, -9 * ONE));
    assert_eq!(parts(&a.div(&raw(2 * ONE)).unwrap()), (ONE / 2, -ONE, 3 * ONE / 2));
    assert_eq!(a.div(&raw(0)).err(), Some(XdsError::DegenerateGeometry));
    assert_eq!(vec3(LIMIT, 0, 0).times(2).err(), Some(XdsError::OutOfRange));
    assert_eq!(vec3(LIMIT, 0, 0).scale(&raw(ONE + 1)).err(), Some(XdsError::OutOfRange));
}

#[test]
fn length() {
    assert_eq!(whole(3, 4, 0).length().unwrap().raw(), 5 * ONE);
    assert_eq!(whole(0, 0, 0).length().unwrap().raw(), 0);
    assert_eq!(whole(1, 1, 1).length().unwrap().raw(), 1_732_050_807);
    assert_eq!(vec3(LIMIT, LIMIT, LIMIT).length().err(), Some(XdsError::OutOfRange));
}

#[test]
fn normalising_returns_the_length() {
    let mut v = whole(3, 4, 0);
    let len = v.uvec().unwrap();
    assert_eq!(len.raw(), 5 * ONE);
    assert_eq!(parts(&v), (600_000_000, 800_000_000, 0));
    assert_eq!(v.length().unwrap().raw(), ONE);
}

#[test]
fn normalising_a_vector_without_length_fails_and_leaves_it() {
    let mut v = whole(0, 0, 0);
    assert_eq!(v.uvec().err(), Some(XdsError::DegenerateGeometry));
    assert_eq!(parts(&v), (0, 0, 0));
    assert_eq!(whole(0, 0, 0).unit().err(), Some(XdsError::DegenerateGeometry));
    let mut w = vec3(LIMIT, LIMIT, 0);
    assert_eq!(w.uvec().err(), Some(XdsError::OutOfRange));
    assert_eq!(parts(&w), (LIMIT, LIMIT, 0));
    // the direction alone needs no length that fits
    assert_eq!(parts(&vec3(LIMIT, LIMIT, 0).unit().unwrap()), (707_106_781, 707_106_781, 0));
}

#[test]
fn unit_vectors_have_length_one() {
    let vectors = [
        whole(1, 1, 1),
        whole(-7, 2, 5),
        vec3(1_234_567_891, -2_345_678_912, 3_456_789_123),
        vec3(ONE, 1, -1),
        vec3(LIMIT, -LIMIT, LIMIT),
        vec3(0, 0, -ONE),
    ];
    for v in vectors.iter() {
        let length = v.unit().unwrap().length().unwrap().raw();
        assert!((length - ONE).abs() <= 4, "{}", length);
    }
    // a vector much shorter than one has too few digits for that
    let short = vec3(1, 1, 1).unit().unwrap();
    assert_eq!(parts(&short), (ONE, ONE, ONE));
}

#[test]
fn unit_vector_rounds_down() {
    let u = whole(-1, 1, 0).unit().unwrap();
    assert_eq!(parts(&u), (-707_106_782, 707_106_781, 0));
}

#[test]
fn right_angle_between_unit_vectors() {
    let pairs = [
        (whole(1, 0, 0), whole(0, 1, 0)),
        (whole(0, 0, -1), whole(1, 0, 0)),
        (vec3(600_000_000, 800_000_000, 0), vec3(-800_000_000, 600_000_000, 0)),
    ];
    for (a, b) in pairs.iter() {
        let angle = a.rad_sin_cos(b).unwrap();
        assert_eq!(angle.cosine().raw(), 0);
        assert_eq!(angle.sine().raw(), ONE);
        let radians = (angle.sine().raw() as f64).atan2(angle.cosine().raw() as f64);
        assert!((radians - std::f64::consts::FRAC_PI_2).abs() < 1e-12);
    }
}

#[test]
fn angle_between_parallel_and_opposite_vectors() {
    let a = whole(0, 2, 0);
    let same = a.rad_sin_cos(&whole(0, 5, 0)).unwrap();
    assert_eq!((same.cosine().raw(), same.sine().raw()), (ONE, 0));
    let opposite = a.rad_sin_cos(&whole(0, -5, 0)).unwrap();
    assert_eq!((opposite.cosine().raw(), opposite.sine().raw()), (-ONE, 0));
}

#[test]
fn angle_of_sixty_degrees() {
    let a = whole(1, 0, 0);
    let b = vec3(500_000_000, 866_025_404, 0);
    let angle = a.rad_sin_cos(&b).unwrap();
    assert!((angle.cosine().raw() - 500_000_000).abs() <= 2);
    assert!((angle.sine().raw() - 866_025_404).abs() <= 2);
}

#[test]
fn no_angle_with_a_vector_without_length() {
    let a = whole(1, 0, 0);
    let o = whole(0, 0, 0);
    assert_eq!(a.rad_sin_cos(&o).err(), Some(XdsError::DegenerateGeometry));
    assert_eq!(o.rad_sin_cos(&a).err(), Some(XdsError::DegenerateGeometry));
}

#[test]
fn quarter_turn_about_z() {
    let quarter = Angle::new(raw(0), raw(ONE)).unwrap();
    let z = whole(0, 0, 1);
    let r = whole(1, 0, 0).rotate(&z, &quarter).unwrap();
    assert_eq!(parts(&r), (0, ONE, 0));
    let r = whole(0, 1, 0).rotate(&z, &quarter).unwrap();
    assert_eq!(parts(&r), (-ONE, 0, 0));
    // a vector along the axis stays
    let r = whole(0, 0, 3).rotate(&z, &quarter).unwrap();
    assert_eq!(parts(&r), (0, 0, 3 * ONE));
}

#[test]
fn turning_by_nothing_changes_nothing() {
    let v = vec3(123_456_789, -987_654_321, 555_555_555);
    let r = v.rotate(&whole(0, 1, 0), &Angle::zero()).unwrap();
    assert_eq!(parts(&r), parts(&v));
}

#[test]
fn half_turn_about_x() {
    let half = Angle::new(raw(-ONE), raw(0)).unwrap();
    let r = whole(1, 2, 3).rotate(&whole(1, 0, 0), &half).unwrap();
    assert_eq!(parts(&r), (ONE, -2 * ONE, -3 * ONE));
}
