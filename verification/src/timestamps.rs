//! Date parsing from the `chrono` crate, reduced to Unix timestamps.
use vstd::prelude::*;

verus! {

/// The Unix timestamp (seconds) of an RFC 2822 date-time, `None` when the
/// text is not one.
pub uninterp spec fn rfc2822_timestamp(s: Seq<char>) -> Option<i64>;

/// The Unix timestamp (seconds) of an RFC 3339 date-time, `None` when the
/// text is not one.
pub uninterp spec fn rfc3339_timestamp(s: Seq<char>) -> Option<i64>;

/// `chrono::DateTime::parse_from_rfc2822`, then `DateTime::timestamp`.
/// Trusted: the result is whatever chrono computes from the text alone (it
/// consults no locale or clock); nothing is stated of its value.
#[verifier::external_body]
pub(crate) fn parse_rfc2822_timestamp(s: &str) -> (r: Option<i64>)
    ensures
        r == rfc2822_timestamp(s@),
{
    match chrono::DateTime::parse_from_rfc2822(s) {
        Ok(dt) => Some(dt.timestamp()),
        Err(_) => None,
    }
}

/// `chrono::DateTime::parse_from_rfc3339`, then `DateTime::timestamp`.
/// Trusted: the result is whatever chrono computes from the text alone (it
/// consults no locale or clock); nothing is stated of its value.
#[verifier::external_body]
pub(crate) fn parse_rfc3339_timestamp(s: &str) -> (r: Option<i64>)
    ensures
        r == rfc3339_timestamp(s@),
{
    match chrono::DateTime::parse_from_rfc3339(s) {
        Ok(dt) => Some(dt.timestamp()),
        Err(_) => None,
    }
}

} // verus!
