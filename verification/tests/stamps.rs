use xds_geometry::error::XdsError;
use xds_geometry::stamp::{build_stamp, stamp_outcome};
use xds_geometry::text::parse_i64;

#[test]
fn whole_numbers_from_text() {
    assert_eq!(parse_i64(b"0"), Some(0));
    assert_eq!(parse_i64(b"-0"), Some(0));
    assert_eq!(parse_i64(b"+17"), Some(17));
    assert_eq!(parse_i64(b"-17"), Some(-17));
    assert_eq!(parse_i64(b"0012"), Some(12));
    assert_eq!(parse_i64(b"9223372036854775807"), Some(i64::MAX));
    assert_eq!(parse_i64(b"-9223372036854775808"), Some(i64::MIN));
    assert_eq!(parse_i64(b"9223372036854775808"), None);
    assert_eq!(parse_i64(b"-9223372036854775809"), None);
    assert_eq!(parse_i64(b"99999999999999999999999999999999999999999999"), None);
    assert_eq!(parse_i64(b""), None);
    assert_eq!(parse_i64(b"+"), None);
    assert_eq!(parse_i64(b"-"), None);
    assert_eq!(parse_i64(b"+-1"), None);
    assert_eq!(parse_i64(b"1 "), None);
    assert_eq!(parse_i64(b" 1"), None);
    assert_eq!(parse_i64(b"1.0"), None);
    assert_eq!(parse_i64(b"12a"), None);
}

#[test]
fn whole_numbers_agree_with_the_standard_library() {
    for text in ["5", "-5", "+5", "", "x", "00", "-", "123456789012", "1e3", "٣"] {
        assert_eq!(parse_i64(text.as_bytes()), text.parse::<i64>().ok(), "{}", text);
    }
}

#[test]
fn stamp_of_a_fixed_build_date() {
    assert_eq!(build_stamp("1431648000"), Ok(String::from("2015-05-15 00:00:00 UTC")));
    assert_eq!(build_stamp("0"), Ok(String::from("1970-01-01 00:00:00 UTC")));
    assert_eq!(build_stamp("-1"), Ok(String::from("1969-12-31 23:59:59 UTC")));
    assert_eq!(build_stamp("1735689599"), Ok(String::from("2024-12-31 23:59:59 UTC")));
}

#[test]
fn stamp_of_the_last_plain_second() {
    assert_eq!(build_stamp("253402300799"), Ok(String::from("9999-12-31 23:59:59 UTC")));
    assert_eq!(build_stamp("+0000"), Ok(String::from("1970-01-01 00:00:00 UTC")));
}

#[test]
fn stamp_of_something_else_than_a_number() {
    assert_eq!(build_stamp(""), Err(XdsError::MalformedInput));
    assert_eq!(build_stamp("yesterday"), Err(XdsError::MalformedInput));
    assert_eq!(build_stamp("12.5"), Err(XdsError::MalformedInput));
    assert_eq!(build_stamp("99999999999999999999"), Err(XdsError::MalformedInput));
}

#[test]
fn stamp_beyond_the_calendar() {
    assert_eq!(build_stamp("9223372036854775807"), Err(XdsError::OutOfRange));
    assert_eq!(build_stamp("-9223372036854775808"), Err(XdsError::OutOfRange));
}

#[test]
fn stamp_outcomes() {
    assert_eq!(stamp_outcome(None, None), Err(XdsError::MalformedInput));
    assert_eq!(stamp_outcome(None, Some(String::from("x"))), Err(XdsError::MalformedInput));
    assert_eq!(stamp_outcome(Some(1), None), Err(XdsError::OutOfRange));
    assert_eq!(stamp_outcome(Some(1), Some(String::from("x"))), Ok(String::from("x")));
}
