//! Timestamps in the textual form that producers write.

use vstd::prelude::*;

verus! {

/// The instant, in milliseconds since the Unix epoch, that `text` denotes when read
/// by the strftime-style `format` as a date and time without zone, taken as UTC;
/// `None` where `text` does not match `format` or names no valid date and time.
pub uninterp spec fn naive_utc_millis(text: Seq<char>, format: Seq<char>) -> Option<i64>;

/// Calls `chrono::NaiveDateTime::parse_from_str` and, on success, converts the date
/// and time to UTC milliseconds with `and_utc().timestamp_millis()`. The contract
/// only gives the outcome its name: what chrono accepts for a format is not restated
/// here, and nothing of it is proved.
#[verifier::external_body]
pub(crate) fn parse_naive_utc_millis(text: &str, format: &str) -> (millis: Option<i64>)
    ensures
        millis == naive_utc_millis(text@, format@),
{
    match chrono::NaiveDateTime::parse_from_str(text, format) {
        Ok(moment) => Some(moment.and_utc().timestamp_millis()),
        Err(_) => None,
    }
}

} // verus!
