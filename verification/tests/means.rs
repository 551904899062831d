use xds_geometry::error::XdsError;
use xds_geometry::fixed::{Fixed, LIMIT, ONE};
use xds_geometry::stats::{weighted_mean_of, wmean, UncertaintyPolicy};

const BOTH: [UncertaintyPolicy; 2] =
    [UncertaintyPolicy::VarianceWeightedResidual, UncertaintyPolicy::BoundedResidualWeight];

fn raw(x: i64) -> Fixed {
    Fixed::from_raw(x).unwrap()
}

fn list(values: &[i64]) -> Vec<Fixed> {
    values.iter().map(|x| raw(*x)).collect()
}

fn pair(r: Result<(Fixed, Fixed), XdsError>) -> Result<(i64, i64), XdsError> {
    r.map(|(m, s)| (m.raw(), s.raw()))
}

#[test]
fn single_fixed_value() {
    for policy in BOTH {
        let r = wmean(&list(&[7 * ONE]), &list(&[0]), policy);
        assert_eq!(pair(r), Ok((7 * ONE, 0)));
    }
}

#[test]
fn first_uncertainty_of_zero_fixes_the_result() {
    for policy in BOTH {
        let values = list(&[-3 * ONE, 1_000 * ONE, LIMIT, 5]);
        let sigmas = list(&[0, 0, -ONE, LIMIT]);
        assert_eq!(pair(wmean(&values, &sigmas, policy)), Ok((-3 * ONE, 0)));
    }
}

#[test]
fn equal_values() {
    let values = list(&[10 * ONE, 10 * ONE, 10 * ONE]);
    let sigmas = list(&[ONE, ONE, ONE]);
    let r = wmean(&values, &sigmas, UncertaintyPolicy::VarianceWeightedResidual);
    assert_eq!(pair(r), Ok((10 * ONE, 0)));
    // with all residuals zero every residual weight is one, and the mean of
    // the uncertainties is their common value
    let r = wmean(&values, &sigmas, UncertaintyPolicy::BoundedResidualWeight);
    assert_eq!(pair(r), Ok((10 * ONE, ONE)));
}

#[test]
fn nine_ten_eleven() {
    let values = list(&[9 * ONE, 10 * ONE, 11 * ONE]);
    let sigmas = list(&[ONE, ONE, ONE]);
    // the square root of two thirds
    let r = wmean(&values, &sigmas, UncertaintyPolicy::VarianceWeightedResidual);
    assert_eq!(pair(r), Ok((10 * ONE, 816_496_580)));
    let expected = (2.0f64 / 3.0).sqrt();
    assert!((816_496_580f64 / 1e9 - expected).abs() < 1e-9);
    // weights 0.99, 1, 0.99 on uncertainties that are all one
    let r = wmean(&values, &sigmas, UncertaintyPolicy::BoundedResidualWeight);
    assert_eq!(pair(r), Ok((10 * ONE, ONE)));
}

#[test]
fn weights_are_one_over_the_squared_uncertainty() {
    // weights 1 and 1/4: mean (1 + 3/4) / (5/4)
    let values = list(&[ONE, 3 * ONE]);
    let sigmas = list(&[ONE, 2 * ONE]);
    assert_eq!(weighted_mean_of(&values, &sigmas).unwrap().raw(), 1_400_000_000);
    let r = wmean(&values, &sigmas, UncertaintyPolicy::VarianceWeightedResidual);
    // sqrt((1 * 0.16 + 2 * 2.56) / 3)
    assert_eq!(pair(r), Ok((1_400_000_000, 1_326_649_916)));
    // residual weights 0.918367347 and -0.306122448: the second value lies
    // further from the mean than the mean from zero
    let r = wmean(&values, &sigmas, UncertaintyPolicy::BoundedResidualWeight);
    assert_eq!(pair(r), Ok((1_400_000_000, 500_000_002)));
}

#[test]
fn cell_edges_with_small_uncertainties() {
    let values = list(&[10_234_000_000, 10_250_000_000, 10_241_000_000]);
    let sigmas = list(&[2_000_000, 5_000_000, 3_000_000]);
    let r = wmean(&values, &sigmas, UncertaintyPolicy::VarianceWeightedResidual);
    assert_eq!(pair(r), Ok((10_237_534_626, 9_153_913)));
    let r = wmean(&values, &sigmas, UncertaintyPolicy::BoundedResidualWeight);
    assert_eq!(pair(r), Ok((10_237_534_626, 3_333_331)));
}

#[test]
fn mean_lies_between_the_values() {
    let sets: [(&[i64], &[i64]); 4] = [
        (&[ONE, 3 * ONE], &[ONE, 2 * ONE]),
        (&[10_234_000_000, 10_250_000_000, 10_241_000_000], &[2_000_000, 5_000_000, 3_000_000]),
        (&[-7 * ONE, -7 * ONE + 1], &[ONE / 3, ONE / 7]),
        (&[5, 5, 5, 6], &[ONE, ONE, ONE, ONE]),
    ];
    for (values, sigmas) in sets {
        let mean = weighted_mean_of(&list(values), &list(sigmas)).unwrap().raw();
        let lo = *values.iter().min().unwrap();
        let hi = *values.iter().max().unwrap();
        assert!(lo - 2 <= mean && mean <= hi, "{} {} {}", lo, mean, hi);
    }
}

#[test]
fn uniform_uncertainty_gives_the_plain_mean() {
    let values = list(&[2 * ONE, 4 * ONE]);
    let sigmas = list(&[ONE, ONE]);
    let r = wmean(&values, &sigmas, UncertaintyPolicy::VarianceWeightedResidual);
    assert_eq!(pair(r), Ok((3 * ONE, ONE)));
    let r = wmean(&values, &sigmas, UncertaintyPolicy::BoundedResidualWeight);
    assert_eq!(pair(r), Ok((3 * ONE, ONE)));
}

#[test]
fn nothing_to_merge() {
    for policy in BOTH {
        assert_eq!(pair(wmean(&list(&[]), &list(&[]), policy)), Err(XdsError::InsufficientData));
        assert_eq!(
            pair(wmean(&list(&[ONE]), &list(&[ONE, ONE]), policy)),
            Err(XdsError::InsufficientData)
        );
        assert_eq!(
            pair(wmean(&list(&[ONE, ONE]), &list(&[0]), policy)),
            Err(XdsError::InsufficientData)
        );
    }
}

#[test]
fn later_uncertainty_of_zero_is_degenerate() {
    for policy in BOTH {
        let r = wmean(&list(&[ONE, ONE]), &list(&[ONE, 0]), policy);
        assert_eq!(pair(r), Err(XdsError::DegenerateGeometry));
    }
}

#[test]
fn mean_of_zero_has_no_residual_weights() {
    let values = list(&[-ONE, ONE]);
    let sigmas = list(&[ONE, ONE]);
    let r = wmean(&values, &sigmas, UncertaintyPolicy::BoundedResidualWeight);
    assert_eq!(pair(r), Err(XdsError::DegenerateGeometry));
    let r = wmean(&values, &sigmas, UncertaintyPolicy::VarianceWeightedResidual);
    assert_eq!(pair(r), Ok((0, ONE)));
}

#[test]
fn uncertainties_that_cancel_are_degenerate() {
    let values = list(&[ONE, 3 * ONE]);
    let sigmas = list(&[ONE, -ONE]);
    let r = wmean(&values, &sigmas, UncertaintyPolicy::VarianceWeightedResidual);
    assert_eq!(pair(r), Err(XdsError::DegenerateGeometry));
}

#[test]
fn weight_too_large() {
    // one over the square of a thousandth of a millionth
    for policy in BOTH {
        let r = wmean(&list(&[ONE]), &list(&[1]), policy);
        assert_eq!(pair(r), Err(XdsError::OutOfRange));
    }
}

#[test]
fn weights_that_vanish_are_degenerate() {
    // one over the square of a million rounds to zero
    assert_eq!(
        weighted_mean_of(&list(&[ONE]), &list(&[1_000_000 * ONE])).err(),
        Some(XdsError::DegenerateGeometry)
    );
}
