//! The wall clock and the calendar.
//!
//! The functions that read the clock go through `chrono::Utc::now`, which
//! panics on a machine whose clock stands before 1970.

use crate::text::text_of;
use vstd::prelude::*;

verus! {

/// Calls `chrono::Utc::now` and `DateTime::timestamp_millis`: the current
/// time in milliseconds since the Unix epoch. Nothing is claimed of the
/// value, which differs from call to call.
#[verifier::external_body]
pub(crate) fn now_millis() -> (now: i64) {
    chrono::Utc::now().timestamp_millis()
}

/// Calls `chrono::Local::now` and `DateTime::format` with `%Y-%m-%d`: today's
/// date in the machine's time zone. Nothing is claimed of the text, which
/// depends on the clock and on the time zone.
#[verifier::external_body]
pub(crate) fn local_today() -> (day: String) {
    chrono::Local::now().format("%Y-%m-%d").to_string()
}

/// The calendar day in UTC on which the instant `millis` milliseconds after
/// the Unix epoch falls, written as year, month and day with dashes;
/// `None` where the instant lies outside the calendar's range.
pub uninterp spec fn utc_day_of(millis: int) -> Option<Seq<char>>;

/// Calls `chrono::DateTime::<Utc>::from_timestamp_millis` and formats what
/// it gives with `%Y-%m-%d`. The result is taken as what `utc_day_of` names;
/// it depends on the number alone.
#[verifier::external_body]
pub(crate) fn utc_day(millis: i64) -> (day: Option<String>)
    ensures
        text_of(day) == utc_day_of(millis as int),
{
    chrono::DateTime::<chrono::Utc>::from_timestamp_millis(millis).map(
        |date| date.format("%Y-%m-%d").to_string(),
    )
}

/// Calls `chrono::Utc::now` and `DateTime::format` with `%Y-%m-%d`: today's
/// date in UTC. Nothing is claimed of the text, which depends on the clock.
#[verifier::external_body]
pub(crate) fn utc_today() -> (day: String) {
    chrono::Utc::now().format("%Y-%m-%d").to_string()
}

} // verus!
