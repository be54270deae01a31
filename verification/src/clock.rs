//! The wall clock (read through `chrono`).  Nothing is promised of the
//! readings: functions that need the time take it as an argument, and the
//! functions that read the clock hand the reading on unchanged.
use vstd::prelude::*;

verus! {

/// Milliseconds since the Unix epoch (`chrono::Utc::now().timestamp_millis()`).
/// Its value depends on the time of the call, so no clause is stated.
#[verifier::external_body]
pub(crate) fn now_millis() -> i64 {
    chrono::Utc::now().timestamp_millis()
}

/// The current UTC time as FIX `SendingTime` text,
/// `chrono::Utc::now().format("%Y%m%d-%H:%M:%S%.3f")`.
/// Its value depends on the time of the call, so no clause is stated.
#[verifier::external_body]
pub(crate) fn sending_time_now() -> String {
    chrono::Utc::now().format("%Y%m%d-%H:%M:%S%.3f").to_string()
}

} // verus!
