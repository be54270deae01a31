//! Text fields of ticks handed to the persister: decimals and timestamps.
use vstd::prelude::*;

use crate::api::params::{parse_rfc3339, rfc3339_millis};
use crate::clock::now_millis;
use crate::decimal::{opt_parts, decimal_from_str, Dec};
use crate::text::{parse_i64, parse_i64_text};

verus! {

/// Parse a decimal (`None` when the text is not one).
pub fn parse_decimal(value: &str) -> (r: Option<Dec>)
    ensures
        opt_parts(r) == decimal_from_str(value@),
{
    Dec::parse(value)
}

/// What `chrono::DateTime::from_timestamp_millis` gives for `ms`, taken back
/// as milliseconds: `None` outside the range of dates chrono represents.
pub uninterp spec fn utc_from_millis(ms: i64) -> Option<i64>;

/// `chrono::DateTime::from_timestamp_millis(ms)`, taken back as
/// milliseconds (`timestamp_millis`), which gives `ms` again.
#[verifier::external_body]
fn from_timestamp_millis(ms: i64) -> (r: Option<i64>)
    ensures
        r == utc_from_millis(ms),
        r matches Some(v) ==> v == ms,
{
    match chrono::DateTime::from_timestamp_millis(ms) {
        Some(dt) => Some(dt.timestamp_millis()),
        None => None,
    }
}

/// The time a timestamp text stands for, given the time `now`: RFC 3339
/// text first, else whole milliseconds since the epoch (`None` when out of
/// chrono's range), else `now`.
pub open spec fn timestamp_of(text: Seq<char>, now: i64) -> Option<i64> {
    match rfc3339_millis(text) {
        Ok(ms) => Some(ms),
        Err(_) => match parse_i64(text) {
            Some(ms) => utc_from_millis(ms),
            None => Some(now),
        },
    }
}

/// Parse a timestamp at time `now` (see `timestamp_of`).
pub fn parse_timestamp_at(timestamp: &str, now: i64) -> (r: Option<i64>)
    ensures
        r == timestamp_of(timestamp@, now),
{
    if let Ok(ms) = parse_rfc3339(timestamp) {
        return Some(ms);
    }
    match parse_i64_text(timestamp) {
        Some(ms) => from_timestamp_millis(ms),
        None => Some(now),
    }
}

/// Parse a timestamp, falling back to the current time for text that is
/// neither RFC 3339 nor milliseconds.
pub fn parse_timestamp(timestamp: &str) -> (r: Option<i64>)
    ensures
        rfc3339_millis(timestamp@) is Ok ==> r == timestamp_of(timestamp@, 0),
        rfc3339_millis(timestamp@) is Err && parse_i64(timestamp@) is Some ==> r == timestamp_of(
            timestamp@,
            0,
        ),
        r is Some || (rfc3339_millis(timestamp@) is Err && parse_i64(timestamp@) is Some),
{
    let now = now_millis();
    parse_timestamp_at(timestamp, now)
}

} // verus!
