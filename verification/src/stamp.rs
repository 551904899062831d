//! The date that a run announces itself with.

use crate::error::XdsError;
use crate::text::{integer_value, parse_i64};
use chrono::{TimeZone, Utc};
use vstd::prelude::*;
use vstd::string::*;

verus! {

/// The text that `chrono` gives the moment `secs` seconds after the start of
/// 1970, in universal time.
pub uninterp spec fn utc_text(secs: int) -> Seq<char>;

/// The last second of the year 9999, counted from the start of 1970.
pub const LAST_PLAIN_SECOND: i64 = 253_402_300_799;

/// Calls `chrono::TimeZone::timestamp_opt` on `chrono::Utc` with `secs` and
/// no nanoseconds, and turns the moment into text with its `Display`. The
/// contract names the text after the number of seconds, on which alone it
/// depends. It claims that `chrono` takes every moment from the start of
/// 1970 to the end of the year 9999, which lies well within the years that
/// its dates reach, and says nothing of which other moments it takes or
/// refuses.
#[verifier::external_body]
fn utc_stamp(secs: i64) -> (r: Option<String>)
    ensures
        r is Some ==> r.unwrap()@ == utc_text(secs as int),
        0 <= secs <= LAST_PLAIN_SECOND ==> r is Some,
{
    match Utc.timestamp_opt(secs, 0).single() {
        Some(moment) => Some(moment.to_string()),
        None => None,
    }
}

/// The stamp, once the number of seconds has been read and the moment has
/// been turned into text: a number that could not be read is malformed
/// input, a moment that could not be turned into text is out of range.
pub fn stamp_outcome(secs: Option<i64>, text: Option<String>) -> (r: Result<String, XdsError>)
    ensures
        secs is None ==> r == Err::<String, XdsError>(XdsError::MalformedInput),
        secs is Some && text is None ==> r == Err::<String, XdsError>(XdsError::OutOfRange),
        secs is Some && text is Some ==> r == Ok::<String, XdsError>(text.unwrap()),
{
    match secs {
        None => Err(XdsError::MalformedInput),
        Some(_) => match text {
            None => Err(XdsError::OutOfRange),
            Some(t) => Ok(t),
        },
    }
}

/// The date of the build that the text `epoch` fixes: a whole number of
/// seconds since the start of 1970. Text that is no whole number is
/// malformed input; a moment up to the end of the year 9999 has a date; any
/// other moment has a date or is out of range.
pub fn build_stamp(epoch: &str) -> (r: Result<String, XdsError>)
    ensures
        match integer_value(epoch.spec_bytes()) {
            None => r == Err::<String, XdsError>(XdsError::MalformedInput),
            Some(secs) => match r {
                Ok(text) => text@ == utc_text(secs),
                Err(e) => e == XdsError::OutOfRange && !(0 <= secs <= LAST_PLAIN_SECOND),
            },
        },
{
    let secs = parse_i64(epoch.as_bytes());
    let text = match secs {
        Some(s) => utc_stamp(s),
        None => None,
    };
    stamp_outcome(secs, text)
}

} // verus!
