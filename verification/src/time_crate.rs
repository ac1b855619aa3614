//! The calls into the `time` crate: every one of them behind a function
//! whose contract is believed, not proved.
//!
//! The `time` crate is built without its `large-dates` feature, so its
//! years run from -9999 to 9999 as those of this crate do.

use time::{Date, Month, PrimitiveDateTime, Time};
use vstd::prelude::*;

use crate::calendar::{day_of, month_of, ordinal_of, valid_calendar_date, valid_ordinal_date};
use crate::duration::{Duration, Span};
use crate::timestamp::{valid_time_of_day, view_of, DateTime, Timestamp};

verus! {

/// The day of the year of a calendar date, or nothing if there is no such
/// date.
///
/// Calls `time::Date::from_calendar_date` and reads the ordinal of the date
/// it returns. Trusted: the call succeeds exactly on a year from -9999 to
/// 9999 with a day that the month has in that year, and the ordinal is the
/// number of days before the month plus the day.
#[verifier::external_body]
pub(crate) fn ordinal_from_calendar(year: i32, month: u8, day: u8) -> (r: Option<u16>)
    requires
        1 <= month <= 12,
    ensures
        r == if valid_calendar_date(year as int, month as int, day as int) {
            Some(ordinal_of(year as int, month as int, day as int) as u16)
        } else {
            None
        },
{
    let month = Month::try_from(month).ok()?;
    Date::from_calendar_date(year, month, day).ok().map(|date| date.ordinal())
}

/// Whether the fields name a time of day.
///
/// Calls `time::Time::from_hms_nano`. Trusted: the call succeeds exactly
/// when the hour is below 24, minute and second below 60, and the
/// nanosecond below one thousand million.
#[verifier::external_body]
pub(crate) fn time_of_day_exists(hour: u8, minute: u8, second: u8, nanosecond: u32) -> (r: bool)
    ensures
        r == valid_time_of_day(hour as int, minute as int, second as int, nanosecond as int),
{
    Time::from_hms_nano(hour, minute, second, nanosecond).is_ok()
}

/// The month and day of a day of the year, or nothing if the year has no
/// such day.
///
/// Calls `time::Date::from_ordinal_date` and `time::Date::to_calendar_date`.
/// Trusted: the first succeeds exactly on a year from -9999 to 9999 with an
/// ordinal from 1 to the length of that year, and the second returns the
/// year it was given, with the month and the day of the month of that day.
#[verifier::external_body]
pub(crate) fn calendar_from_ordinal(year: i32, ordinal: u16) -> (r: Option<(i32, u8, u8)>)
    ensures
        r == if valid_ordinal_date(year as int, ordinal as int) {
            Some(
                (
                    year,
                    month_of(year as int, ordinal as int) as u8,
                    day_of(year as int, ordinal as int) as u8,
                ),
            )
        } else {
            None
        },
{
    let (year, month, day) = Date::from_ordinal_date(year, ordinal).ok()?.to_calendar_date();
    Some((year, u8::from(month), day))
}

/// The instant that the date library reaches from `at` by going `span`
/// forward, or nothing where it finds none it can represent.
pub uninterp spec fn instant_plus(at: DateTime, span: Span) -> Option<DateTime>;

/// `at + span`, or nothing on overflow.
///
/// Builds the `time::PrimitiveDateTime` of `at`, calls its `checked_add`
/// with the `time::Duration` of `span`, and takes the result apart.
/// Trusted: the result depends on the two arguments alone; what it is, is
/// left to the library and goes by the name `instant_plus`. Where there is
/// one, it is an instant of the calendar, as every value of the library's
/// types is.
#[verifier::external_body]
pub(crate) fn plain_checked_add(at: Timestamp, span: Duration) -> (r: Option<Timestamp>)
    ensures
        view_of(r) == instant_plus(at@, span@),
        r is Some ==> r.unwrap()@.valid(),
{
    let date = Date::from_ordinal_date(at.year, at.ordinal).ok()?;
    let time = Time::from_hms_nano(at.hour, at.minute, at.second, at.nanosecond).ok()?;
    let span = time::Duration::new(span.seconds, span.nanoseconds);
    let sum = PrimitiveDateTime::new(date, time).checked_add(span)?;
    let (hour, minute, second, nanosecond) = sum.as_hms_nano();
    Some(Timestamp { year: sum.year(), ordinal: sum.ordinal(), hour, minute, second, nanosecond })
}

/// The instant that the date library reaches from `at` by going `span`
/// back, or nothing where it finds none it can represent.
pub uninterp spec fn instant_minus(at: DateTime, span: Span) -> Option<DateTime>;

/// `at - span`, or nothing on overflow.
///
/// Builds the `time::PrimitiveDateTime` of `at`, calls its `checked_sub`
/// with the `time::Duration` of `span`, and takes the result apart.
/// Trusted: the result depends on the two arguments alone; what it is, is
/// left to the library and goes by the name `instant_minus`. Where there is
/// one, it is an instant of the calendar, as every value of the library's
/// types is.
#[verifier::external_body]
pub(crate) fn plain_checked_sub(at: Timestamp, span: Duration) -> (r: Option<Timestamp>)
    ensures
        view_of(r) == instant_minus(at@, span@),
        r is Some ==> r.unwrap()@.valid(),
{
    let date = Date::from_ordinal_date(at.year, at.ordinal).ok()?;
    let time = Time::from_hms_nano(at.hour, at.minute, at.second, at.nanosecond).ok()?;
    let span = time::Duration::new(span.seconds, span.nanoseconds);
    let difference = PrimitiveDateTime::new(date, time).checked_sub(span)?;
    let (hour, minute, second, nanosecond) = difference.as_hms_nano();
    Some(
        Timestamp {
            year: difference.year(),
            ordinal: difference.ordinal(),
            hour,
            minute,
            second,
            nanosecond,
        },
    )
}

/// The span that the date library finds from `earlier` to `later`.
pub uninterp spec fn span_between(later: DateTime, earlier: DateTime) -> Span;

/// The span from `earlier` to `later`.
///
/// Builds the `time::PrimitiveDateTime` of both, subtracts the second from
/// the first, and takes the `time::Duration` apart. Trusted: the
/// subtraction never fails, and its result depends on the two arguments
/// alone; what it is, is left to the library and goes by the name
/// `span_between`. Its seconds and nanoseconds never point apart, as in
/// every value of the library's type.
#[verifier::external_body]
pub(crate) fn plain_difference(later: Timestamp, earlier: Timestamp) -> (r: Option<Duration>)
    ensures
        r is Some,
        r.unwrap()@ == span_between(later@, earlier@),
        r.unwrap()@.valid(),
{
    let date = Date::from_ordinal_date(later.year, later.ordinal).ok()?;
    let time = Time::from_hms_nano(later.hour, later.minute, later.second, later.nanosecond).ok()?;
    let later = PrimitiveDateTime::new(date, time);
    let date = Date::from_ordinal_date(earlier.year, earlier.ordinal).ok()?;
    let time =
        Time::from_hms_nano(earlier.hour, earlier.minute, earlier.second, earlier.nanosecond).ok()?;
    let span = later - PrimitiveDateTime::new(date, time);
    Some(Duration { seconds: span.whole_seconds(), nanoseconds: span.subsec_nanoseconds() })
}

} // verus!
