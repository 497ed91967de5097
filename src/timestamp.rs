//! Calendar values read from the clock or from date strings.

use chrono::{Datelike, TimeZone, Timelike};
use vstd::prelude::*;

verus! {

/// A calendar date.
#[derive(Debug, Clone, Copy, PartialEq, Eq, Hash)]
pub struct Date {
    pub year: i32,
    pub month: u32,
    pub day: u32,
}

/// A date with a time of day. A `nanosecond` of one billion or more marks a
/// leap second.
#[derive(Debug, Clone, Copy, PartialEq, Eq, Hash)]
pub struct Timestamp {
    pub date: Date,
    pub hour: u32,
    pub minute: u32,
    pub second: u32,
    pub nanosecond: u32,
}

impl Date {
    /// Month and day are within their calendar ranges.
    pub open spec fn valid(&self) -> bool {
        1 <= self.month <= 12 && 1 <= self.day <= 31
    }
}

impl Timestamp {
    /// Every field is within its range.
    pub open spec fn valid(&self) -> bool {
        &&& self.date.valid()
        &&& self.hour <= 23
        &&& self.minute <= 59
        &&& self.second <= 59
        &&& self.nanosecond < 2_000_000_000
    }

    /// Checks [`Timestamp::valid`].
    pub fn is_valid(&self) -> (r: bool)
        ensures
            r == self.valid(),
    {
        1 <= self.date.month && self.date.month <= 12 && 1 <= self.date.day && self.date.day <= 31
            && self.hour <= 23 && self.minute <= 59 && self.second <= 59 && self.nanosecond
            < 2_000_000_000
    }
}

/// What `chrono::NaiveDateTime::parse_from_str` gives for a text in the
/// format `%Y-%m-%d %H:%M`.
pub uninterp spec fn date_minute_of(text: Seq<char>) -> Option<Timestamp>;

/// What `chrono::NaiveDate::parse_from_str` gives for a text in the format
/// `%Y-%m-%d`.
pub uninterp spec fn date_of(text: Seq<char>) -> Option<Date>;

/// Relies on `std::time::SystemTime::now` and `SystemTime::duration_since`:
/// the seconds and nanoseconds since the Unix epoch; `None` when the clock
/// reads earlier than the epoch or the seconds do not fit an `i64`.
/// `Duration::subsec_nanos` is always below one billion.
#[verifier::external_body]
fn unix_time_now() -> (r: Option<(i64, u32)>)
    ensures
        r matches Some((_, nanos)) ==> nanos < 1_000_000_000,
{
    let since = std::time::SystemTime::now().duration_since(std::time::UNIX_EPOCH).ok()?;
    let secs = i64::try_from(since.as_secs()).ok()?;
    Some((secs, since.subsec_nanos()))
}

/// Relies on chrono for the local date and time of a Unix instant:
/// `DateTime::from_timestamp` (`None` outside chrono's range), the `Local`
/// time zone's `offset_from_utc_datetime`, and
/// `NaiveDateTime::checked_add_offset` (`None` outside chrono's range). Each
/// field of the result is within the range that chrono documents for it. The
/// time-zone lookup panics only on corrupt time-zone data of the system.
#[verifier::external_body]
fn local_time_at(secs: i64, nanos: u32) -> (r: Option<Timestamp>)
    ensures
        r matches Some(t) ==> t.valid(),
{
    let utc = chrono::DateTime::from_timestamp(secs, nanos)?.naive_utc();
    let local = utc.checked_add_offset(chrono::Local.offset_from_utc_datetime(&utc))?;
    let date = Date { year: local.year(), month: local.month(), day: local.day() };
    Some(Timestamp {
        date,
        hour: local.hour(),
        minute: local.minute(),
        second: local.second(),
        nanosecond: local.nanosecond(),
    })
}

/// The local date and time now; `None` when the system clock reads a time
/// that chrono cannot represent (before 1970 or beyond chrono's range).
pub fn local_now() -> (r: Option<Timestamp>)
    ensures
        r matches Some(t) ==> t.valid(),
{
    match unix_time_now() {
        Some((secs, nanos)) => local_time_at(secs, nanos),
        None => None,
    }
}

/// Relies on `chrono::NaiveDateTime::parse_from_str` with `%Y-%m-%d %H:%M`:
/// the result depends on the text alone, its fields are within chrono's
/// ranges, and the seconds and nanoseconds that the format leaves out are zero.
#[verifier::external_body]
pub(crate) fn parse_date_minute(text: &str) -> (r: Option<Timestamp>)
    ensures
        r == date_minute_of(text@),
        r matches Some(t) ==> t.valid() && t.second == 0 && t.nanosecond == 0,
{
    let dt = chrono::NaiveDateTime::parse_from_str(text, "%Y-%m-%d %H:%M").ok()?;
    let date = Date { year: dt.year(), month: dt.month(), day: dt.day() };
    Some(Timestamp {
        date,
        hour: dt.hour(),
        minute: dt.minute(),
        second: dt.second(),
        nanosecond: dt.nanosecond(),
    })
}

/// Relies on `chrono::NaiveDate::parse_from_str` with `%Y-%m-%d`: the result
/// depends on the text alone, and month and day are within chrono's ranges.
#[verifier::external_body]
pub(crate) fn parse_date(text: &str) -> (r: Option<Date>)
    ensures
        r == date_of(text@),
        r matches Some(d) ==> d.valid(),
{
    let d = chrono::NaiveDate::parse_from_str(text, "%Y-%m-%d").ok()?;
    Some(Date { year: d.year(), month: d.month(), day: d.day() })
}

} // verus!
