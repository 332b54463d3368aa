//! Points in time, local midnights and the texts that stand for a time.
//!
//! The current time and the texts come from the `time` crate. The
//! arithmetic on timestamps is this module's own.

use time::format_description::parse_borrowed;
use time::{OffsetDateTime, UtcOffset};
use vstd::prelude::*;

verus! {

/// The seconds of one day.
pub const DAY: i64 = 86_400;

/// A point in time, with the offset of local time from UTC at that point.
#[derive(Clone, Copy, Debug, PartialEq, Eq, Structural)]
pub struct LocalTime {
    /// Seconds since the Unix epoch.
    pub timestamp: i64,
    /// Seconds that local time is ahead of UTC.
    pub offset: i32,
}

/// The seconds that have passed of the local day at `now`.
pub open spec fn seconds_of_day(now: LocalTime) -> int {
    (now.timestamp + now.offset) % (DAY as int)
}

/// The timestamp of the local midnight that ends the day of `now`.
pub open spec fn midnight_after(now: LocalTime) -> int {
    now.timestamp - seconds_of_day(now) + DAY
}

/// The next local midnight lies after `now`, at most a day away, and is a
/// midnight in the offset of `now`.
pub proof fn lemma_midnight_after(now: LocalTime)
    ensures
        now.timestamp < midnight_after(now) <= now.timestamp + DAY,
        (midnight_after(now) + now.offset) % (DAY as int) == 0,
{
}

/// Two times with one offset of which the later comes before the midnight
/// that ends the day of the earlier lie on one local day: that midnight
/// ends the day of both.
pub proof fn lemma_same_day(earlier: LocalTime, later: LocalTime)
    requires
        earlier.offset == later.offset,
        earlier.timestamp <= later.timestamp < midnight_after(earlier),
    ensures
        midnight_after(later) == midnight_after(earlier),
{
    let start = midnight_after(earlier) - DAY;
    let passed = later.timestamp - start;
    assert((start + earlier.offset) % (DAY as int) == 0);
    assert((start + later.offset + passed) % (DAY as int) == passed);
}

/// The timestamp of the local midnight that ends the day of `now`, or
/// `None` where no `i64` holds it.
pub fn next_midnight(now: LocalTime) -> (midnight: Option<i64>)
    ensures
        match midnight {
            Some(m) => m == midnight_after(now),
            None => midnight_after(now) > i64::MAX,
        },
{
    let day: i128 = DAY as i128;
    let local: i128 = now.timestamp as i128 + now.offset as i128;
    let passed: i128 = if local >= 0 {
        local % day
    } else {
        day - 1 - (-(local + 1)) % day
    };
    let midnight: i128 = now.timestamp as i128 - passed + day;
    if midnight <= i64::MAX as i128 {
        Some(midnight as i64)
    } else {
        None
    }
}

/// The description of a calendar date as `YYYY-MM-DD`.
pub const DATE_FORMAT: &'static str = "[year]-[month]-[day]";

/// The description of a time of day as `[HH:MM:SS]`.
pub const TIME_FORMAT: &'static str = r"\[[hour]:[minute]:[second]\]";

/// The text that the `time` crate writes for a point in time under a format
/// description, where it can write one.
pub uninterp spec fn formatted(description: Seq<char>, timestamp: int, offset: int) -> Option<
    Seq<char>,
>;

/// The calendar date of the local day at `now`.
pub open spec fn date_text(now: LocalTime) -> Option<Seq<char>> {
    formatted(DATE_FORMAT@, now.timestamp as int, now.offset as int)
}

/// The local time of day at `now`.
pub open spec fn time_text(now: LocalTime) -> Option<Seq<char>> {
    formatted(TIME_FORMAT@, now.timestamp as int, now.offset as int)
}

/// `OffsetDateTime::format` under the description that
/// `format_description::parse_borrowed` reads from `description`, on the
/// date-time that the `time` crate makes of the timestamp and the offset.
/// The text depends on these three alone. There is none where the crate
/// refuses the description, the timestamp, the offset or the local date.
#[verifier::external_body]
pub(crate) fn format_at(description: &str, now: LocalTime) -> (text: Option<String>)
    ensures
        text is Some == formatted(description@, now.timestamp as int, now.offset as int) is Some,
        text matches Some(t) ==> formatted(description@, now.timestamp as int, now.offset as int)
            == Some(t@),
{
    let offset = UtcOffset::from_whole_seconds(now.offset).ok()?;
    let utc = OffsetDateTime::from_unix_timestamp(now.timestamp).ok()?;
    let items = parse_borrowed::<2>(description).ok()?;
    utc.checked_to_offset(offset)?.format(&items).ok()
}

/// The calendar date of the local day at `now`, as the `time` crate writes
/// it.
pub fn format_date(now: LocalTime) -> (text: Option<String>)
    ensures
        text is Some == date_text(now) is Some,
        text matches Some(t) ==> date_text(now) == Some(t@),
{
    format_at(DATE_FORMAT, now)
}

/// The local time of day at `now`, as the `time` crate writes it.
pub fn format_time(now: LocalTime) -> (text: Option<String>)
    ensures
        text is Some == time_text(now) is Some,
        text matches Some(t) ==> time_text(now) == Some(t@),
{
    format_at(TIME_FORMAT, now)
}

/// `OffsetDateTime::now_utc`: the timestamp of the current time. Nothing is
/// known of it beforehand.
#[verifier::external_body]
pub(crate) fn utc_now() -> i64 {
    OffsetDateTime::now_utc().unix_timestamp()
}

/// `OffsetDateTime::now_local`: the current time with the local offset, or
/// `None` where the offset cannot be found out. Nothing is known of it
/// beforehand.
#[verifier::external_body]
pub(crate) fn local_now() -> Option<LocalTime> {
    let now = OffsetDateTime::now_local().ok()?;
    Some(LocalTime { timestamp: now.unix_timestamp(), offset: now.offset().whole_seconds() })
}

} // verus!
