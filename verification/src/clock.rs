//! The current time in UTC, read from the system by way of `chrono`.

use chrono::{Datelike, Timelike, Utc};
use vstd::prelude::*;

verus! {

/// One reading of the clock: the seconds since the Unix epoch and the same
/// instant as a calendar date and a time of day in UTC.
#[derive(Clone, Copy, Debug)]
pub struct UtcNow {
    pub unix_seconds: i64,
    pub year: i32,
    pub month: u32,
    pub day: u32,
    pub hour: u32,
    pub minute: u32,
    pub second: u32,
}

impl UtcNow {
    /// The fields lie in the ranges of a calendar date and a time of day.
    pub open spec fn wf(&self) -> bool {
        &&& 1 <= self.month <= 12
        &&& 1 <= self.day <= 31
        &&& self.hour <= 23
        &&& self.minute <= 59
        &&& self.second <= 59
    }
}

/// Reads the clock with `chrono::Utc::now` and takes the reading apart with
/// `DateTime::timestamp`, `Datelike::{year, month, day}` and
/// `Timelike::{hour, minute, second}`.
///
/// Trusted: nothing is claimed of the instant itself, only the ranges that
/// chrono documents for its accessors (month 1 to 12, day 1 to 31, hour 0 to
/// 23, minute and second 0 to 59). `Utc::now` panics when the system clock
/// stands before the Unix epoch.
#[verifier::external_body]
pub(crate) fn utc_now() -> (now: UtcNow)
    ensures
        now.wf(),
{
    let t = Utc::now();
    UtcNow {
        unix_seconds: t.timestamp(),
        year: t.year(),
        month: t.month(),
        day: t.day(),
        hour: t.hour(),
        minute: t.minute(),
        second: t.second(),
    }
}

} // verus!
