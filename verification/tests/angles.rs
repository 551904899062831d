use xds_geometry::angle::Angle;
use xds_geometry::fixed::{Fixed, ONE};

fn raw(x: i64) -> Fixed {
    Fixed::from_raw(x).unwrap()
}

fn parts(a: &Angle) -> (i64, i64) {
    (a.cosine().raw(), a.sine().raw())
}

#[test]
fn cosine_and_sine_are_limited_to_one() {
    assert!(Angle::new(raw(ONE), raw(-ONE)).is_some());
    assert!(Angle::new(raw(ONE + 1), raw(0)).is_none());
    assert!(Angle::new(raw(0), raw(-ONE - 1)).is_none());
    assert_eq!(parts(&Angle::zero()), (ONE, 0));
}

#[test]
fn angle_from_its_cosine() {
    assert_eq!(parts(&Angle::from_cosine(&raw(0))), (0, ONE));
    assert_eq!(parts(&Angle::from_cosine(&raw(ONE))), (ONE, 0));
    assert_eq!(parts(&Angle::from_cosine(&raw(-ONE))), (-ONE, 0));
    assert_eq!(parts(&Angle::from_cosine(&raw(600_000_000))), (600_000_000, 800_000_000));
    assert_eq!(parts(&Angle::from_cosine(&raw(-600_000_000))), (-600_000_000, 800_000_000));
    assert_eq!(parts(&Angle::from_cosine(&raw(500_000_000))), (500_000_000, 866_025_403));
}

#[test]
fn cosine_beyond_one_is_clamped() {
    assert_eq!(parts(&Angle::from_cosine(&raw(ONE + 5))), (ONE, 0));
    assert_eq!(parts(&Angle::from_cosine(&raw(-7 * ONE))), (-ONE, 0));
}

#[test]
fn sums_by_the_addition_theorems() {
    let quarter = Angle::from_cosine(&raw(0));
    assert_eq!(parts(&quarter.plus(&quarter)), (-ONE, 0));
    assert_eq!(parts(&quarter.minus(&quarter)), (ONE, 0));
    assert_eq!(parts(&quarter.neg()), (0, -ONE));
    assert_eq!(parts(&quarter.plus(&quarter).plus(&quarter)), (0, -ONE));
    let a = Angle::from_cosine(&raw(600_000_000));
    let b = Angle::from_cosine(&raw(800_000_000));
    // cos = 0.6 * 0.8 - 0.8 * 0.6, sin = 0.8 * 0.8 + 0.6 * 0.6
    assert_eq!(parts(&a.plus(&b)), (0, ONE));
    // cos = 0.48 + 0.48, sin = 0.64 - 0.36
    assert_eq!(parts(&a.minus(&b)), (960_000_000, 280_000_000));
    assert_eq!(parts(&b.minus(&a)), (960_000_000, -280_000_000));
}
