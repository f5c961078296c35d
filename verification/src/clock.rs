//! The wall clock and chrono's reading and writing of dates.

use crate::util::{millis_spec, to_millis, unix_time};
use chrono::TimeZone;
use vstd::prelude::*;

verus! {

/// The milliseconds since the Unix epoch of a time written as text, as chrono reads a
/// `DateTime<Utc>` from it; `None` when chrono does not read it.
pub uninterp spec fn utc_millis(s: Seq<char>) -> Option<i64>;

/// `s.parse::<chrono::DateTime<chrono::Utc>>()`, in milliseconds since the Unix epoch
/// (`DateTime::timestamp_millis`); `None` when chrono refuses the text.
#[verifier::external_body]
pub(crate) fn parse_utc_millis(s: &str) -> (r: Option<i64>)
    ensures
        r == utc_millis(s@),
{
    s.parse::<chrono::DateTime<chrono::Utc>>().ok().map(|d| d.timestamp_millis())
}

/// The current time in milliseconds since the Unix epoch, as the system clock reads it;
/// `None` when the clock reads before the epoch or the count does not fit an `i64`.
pub(crate) fn now_millis() -> (r: Option<i64>)
    ensures
        r matches Some(ms) ==> ms >= 0 && exists|secs: nat, nanos: nat|
            nanos < 1_000_000_000 && ms == millis_spec(secs, nanos),
{
    match unix_time() {
        Some((secs, nanos)) => match to_millis(secs, nanos) {
            Some(ms) => if ms <= i64::MAX as u64 {
                assert(ms == millis_spec(secs as nat, nanos as nat));
                Some(ms as i64)
            } else {
                None
            },
            None => None,
        },
        None => None,
    }
}

/// The text chrono writes for the UTC time `secs` seconds after the Unix epoch
/// (`Display` of `DateTime<Utc>`, such as `2018-11-04 20:31:00 UTC`); `None` when chrono
/// cannot represent that time.
pub uninterp spec fn utc_date_text(secs: i64) -> Option<Seq<char>>;

/// `chrono::Utc.timestamp_opt(secs, 0)`, written with `to_string`; `None` when chrono
/// cannot represent that time.
#[verifier::external_body]
pub(crate) fn utc_date(secs: i64) -> (r: Option<String>)
    ensures
        match r {
            Some(t) => utc_date_text(secs) == Some(t@),
            None => utc_date_text(secs) is None,
        },
{
    chrono::Utc.timestamp_opt(secs, 0).single().map(|d| d.to_string())
}

} // verus!
