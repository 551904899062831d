use xds_geometry::error::XdsError;
use xds_geometry::fixed::{integer_sqrt, Fixed, LIMIT, ONE};

fn raw(x: i64) -> Fixed {
    Fixed::from_raw(x).unwrap()
}

#[test]
fn raw_values_are_limited() {
    assert!(Fixed::from_raw(LIMIT).is_some());
    assert!(Fixed::from_raw(-LIMIT).is_some());
    assert!(Fixed::from_raw(LIMIT + 1).is_none());
    assert!(Fixed::from_raw(-LIMIT - 1).is_none());
    assert!(Fixed::from_raw(i64::MIN).is_none());
    assert_eq!(raw(-17).raw(), -17);
}

#[test]
fn whole_numbers() {
    assert_eq!(Fixed::from_int(3).unwrap().raw(), 3 * ONE);
    assert_eq!(Fixed::from_int(-1_000_000_000).unwrap().raw(), -LIMIT);
    assert_eq!(Fixed::from_int(1_000_000_001).err(), Some(XdsError::OutOfRange));
    assert_eq!(Fixed::zero().raw(), 0);
    assert_eq!(Fixed::one().raw(), ONE);
}

#[test]
fn sums_and_differences_are_exact() {
    assert_eq!(raw(5).add(&raw(-7)).unwrap().raw(), -2);
    assert_eq!(raw(5).sub(&raw(-7)).unwrap().raw(), 12);
    assert_eq!(raw(LIMIT).add(&raw(1)).err(), Some(XdsError::OutOfRange));
    assert_eq!(raw(-LIMIT).sub(&raw(1)).err(), Some(XdsError::OutOfRange));
    assert_eq!(raw(LIMIT).neg().raw(), -LIMIT);
}

#[test]
fn products_round_down() {
    // 1.5 * 2.5 = 3.75
    assert_eq!(raw(1_500_000_000).mul(&raw(2_500_000_000)).unwrap().raw(), 3_750_000_000);
    // 0.000000001 * 0.5 = 0.0000000005, which rounds down to 0
    assert_eq!(raw(1).mul(&raw(500_000_000)).unwrap().raw(), 0);
    // and -0.0000000005 rounds down to -0.000000001
    assert_eq!(raw(-1).mul(&raw(500_000_000)).unwrap().raw(), -1);
    assert_eq!(raw(-3).mul(&raw(-ONE)).unwrap().raw(), 3);
    assert_eq!(raw(LIMIT).mul(&raw(ONE + 1)).err(), Some(XdsError::OutOfRange));
    assert_eq!(raw(LIMIT).mul(&raw(ONE)).unwrap().raw(), LIMIT);
}

#[test]
fn quotients_round_down() {
    // 1 / 3
    assert_eq!(raw(ONE).div(&raw(3 * ONE)).unwrap().raw(), 333_333_333);
    // -1 / 3 rounds towards minus infinity
    assert_eq!(raw(-ONE).div(&raw(3 * ONE)).unwrap().raw(), -333_333_334);
    assert_eq!(raw(ONE).div(&raw(-3 * ONE)).unwrap().raw(), -333_333_334);
    assert_eq!(raw(-ONE).div(&raw(-3 * ONE)).unwrap().raw(), 333_333_333);
    assert_eq!(raw(6 * ONE).div(&raw(-2 * ONE)).unwrap().raw(), -3 * ONE);
    assert_eq!(raw(0).div(&raw(5)).unwrap().raw(), 0);
}

#[test]
fn division_by_zero_is_degenerate() {
    assert_eq!(raw(ONE).div(&raw(0)).err(), Some(XdsError::DegenerateGeometry));
    assert_eq!(raw(0).div(&raw(0)).err(), Some(XdsError::DegenerateGeometry));
}

#[test]
fn quotient_out_of_range() {
    assert_eq!(raw(LIMIT).div(&raw(1)).err(), Some(XdsError::OutOfRange));
    assert_eq!(raw(2 * ONE).div(&raw(2)).unwrap().raw(), LIMIT);
}

#[test]
fn square_roots() {
    assert_eq!(raw(4 * ONE).sqrt().unwrap().raw(), 2 * ONE);
    assert_eq!(raw(2 * ONE).sqrt().unwrap().raw(), 1_414_213_562);
    assert_eq!(raw(0).sqrt().unwrap().raw(), 0);
    assert_eq!(raw(1).sqrt().unwrap().raw(), 31_622);
    assert_eq!(raw(LIMIT).sqrt().unwrap().raw(), 31_622_776_601_683);
    assert_eq!(raw(-1).sqrt().err(), Some(XdsError::DegenerateGeometry));
}

#[test]
fn integer_square_roots() {
    assert_eq!(integer_sqrt(0), 0);
    assert_eq!(integer_sqrt(1), 1);
    assert_eq!(integer_sqrt(3), 1);
    assert_eq!(integer_sqrt(4), 2);
    assert_eq!(integer_sqrt(99), 9);
    assert_eq!(integer_sqrt(100), 10);
    assert_eq!(integer_sqrt(u128::MAX), u64::MAX as u128);
    let big: u128 = 1_000_000_007;
    assert_eq!(integer_sqrt(big * big), big);
    assert_eq!(integer_sqrt(big * big - 1), big - 1);
    assert_eq!(integer_sqrt(big * big + 2 * big), big);
}

#[test]
fn comparisons() {
    assert!(raw(-1).lt(&raw(0)));
    assert!(!raw(0).lt(&raw(0)));
    assert!(raw(0).le(&raw(0)));
    assert!(raw(7).same(&raw(7)));
    assert!(!raw(7).same(&raw(8)));
    assert!(raw(0).is_zero());
    assert!(raw(-5).is_negative());
    assert!(!raw(0).is_negative());
}
