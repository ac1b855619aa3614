//! The timestamp: a UTC calendar date and time of day, to the nanosecond.

use vstd::prelude::*;

use crate::calendar::{
    day_of, days_in_year, is_leap_year, lemma_calendar_to_ordinal, lemma_ordinal_to_calendar,
    month_of, ordinal_of, to_calendar_date_x16, valid_calendar_date, valid_ordinal_date,
    MAX_YEAR, MIN_YEAR,
};
use crate::duration::{Duration, Span};
use crate::time_crate::{
    calendar_from_ordinal, instant_minus, instant_plus, ordinal_from_calendar, plain_checked_add,
    plain_checked_sub, plain_difference, span_between, time_of_day_exists,
};

verus! {

/// What a timestamp stands for: a year, a day of that year counted from 1,
/// and a time of day.
pub struct DateTime {
    pub year: int,
    pub ordinal: int,
    pub hour: int,
    pub minute: int,
    pub second: int,
    pub nanosecond: int,
}

impl DateTime {
    /// Whether the fields name an instant: a day of the calendar and a time
    /// of day below 24:00.
    pub open spec fn valid(self) -> bool {
        &&& valid_ordinal_date(self.year, self.ordinal)
        &&& valid_time_of_day(self.hour, self.minute, self.second, self.nanosecond)
    }

    /// The month of the year, 1 to 12.
    pub open spec fn month(self) -> int {
        month_of(self.year, self.ordinal)
    }

    /// The day of the month, from 1.
    pub open spec fn day(self) -> int {
        day_of(self.year, self.ordinal)
    }
}

/// Whether the fields name a time of day.
pub open spec fn valid_time_of_day(hour: int, minute: int, second: int, nanosecond: int) -> bool {
    0 <= hour < 24 && 0 <= minute < 60 && 0 <= second < 60 && 0 <= nanosecond < 1_000_000_000
}

/// The instant of a calendar date and a time of day.
pub open spec fn calendar_date_time(
    year: int,
    month: int,
    day: int,
    hour: int,
    minute: int,
    second: int,
    nanosecond: int,
) -> DateTime {
    DateTime { year, ordinal: ordinal_of(year, month, day), hour, minute, second, nanosecond }
}

/// Midnight of 1970-01-01.
pub open spec fn unix_epoch() -> DateTime {
    DateTime { year: 1970, ordinal: 1, hour: 0, minute: 0, second: 0, nanosecond: 0 }
}

/// The first instant a timestamp can hold: midnight of -9999-01-01.
pub open spec fn min_instant() -> DateTime {
    DateTime { year: -9999, ordinal: 1, hour: 0, minute: 0, second: 0, nanosecond: 0 }
}

/// The last instant a timestamp can hold: the last nanosecond of
/// 9999-12-31.
pub open spec fn max_instant() -> DateTime {
    DateTime {
        year: 9999,
        ordinal: 365,
        hour: 23,
        minute: 59,
        second: 59,
        nanosecond: 999_999_999,
    }
}

/// The instant `found`, or where none was found the end of time: the first
/// instant if the search went backward, the last if it went forward.
pub open spec fn saturated(found: Option<DateTime>, backward: bool) -> DateTime {
    match found {
        Some(at) => at,
        None => if backward {
            min_instant()
        } else {
            max_instant()
        },
    }
}

/// `at + span` where the date library finds it, else the end of time on
/// the side that `span` points to.
pub open spec fn saturated_plus(at: DateTime, span: Span) -> DateTime {
    saturated(instant_plus(at, span), span.total_nanoseconds() < 0)
}

/// `at - span` where the date library finds it, else the end of time on
/// the side that `span` points away from.
pub open spec fn saturated_minus(at: DateTime, span: Span) -> DateTime {
    saturated(instant_minus(at, span), span.total_nanoseconds() >= 0)
}

/// UTC timestamp with nanosecond precision.
///
/// Every value is a valid instant of the proleptic Gregorian calendar
/// between the years -9999 and 9999; the order of timestamps is the order of
/// time.
#[derive(Clone, Copy, Debug, PartialEq, Eq, Hash, PartialOrd, Ord, Structural)]
pub struct Timestamp {
    pub(crate) year: i32,
    pub(crate) ordinal: u16,
    pub(crate) hour: u8,
    pub(crate) minute: u8,
    pub(crate) second: u8,
    pub(crate) nanosecond: u32,
}

impl View for Timestamp {
    type V = DateTime;

    open(crate) spec fn view(&self) -> DateTime {
        DateTime {
            year: self.year as int,
            ordinal: self.ordinal as int,
            hour: self.hour as int,
            minute: self.minute as int,
            second: self.second as int,
            nanosecond: self.nanosecond as int,
        }
    }
}

/// What an optional timestamp stands for.
pub open spec fn view_of(r: Option<Timestamp>) -> Option<DateTime> {
    match r {
        Some(ts) => Some(ts@),
        None => None,
    }
}

impl Timestamp {
    #[verifier::type_invariant]
    pub open(crate) spec fn well_formed(self) -> bool {
        self@.valid()
    }

    /// Unix Epoch -- 1970-01-01 Midnight
    pub fn unix_epoch() -> (r: Timestamp)
        ensures
            r@ == unix_epoch(),
    {
        Timestamp { year: 1970, ordinal: 1, hour: 0, minute: 0, second: 0, nanosecond: 0 }
    }

    /// The timestamp of a calendar date and a time of day, or nothing if
    /// the fields name no instant (month 13, February 30, hour 24, ...).
    pub fn from_calendar(
        year: i32,
        month: u8,
        day: u8,
        hour: u8,
        minute: u8,
        second: u8,
        nanosecond: u32,
    ) -> (r: Option<Timestamp>)
        ensures
            r is Some <==> valid_calendar_date(year as int, month as int, day as int)
                && valid_time_of_day(
                hour as int,
                minute as int,
                second as int,
                nanosecond as int,
            ),
            r is Some ==> r.unwrap()@ == calendar_date_time(
                year as int,
                month as int,
                day as int,
                hour as int,
                minute as int,
                second as int,
                nanosecond as int,
            ),
    {
        if month < 1 || month > 12 {
            return None;
        }
        let ordinal = match ordinal_from_calendar(year, month, day) {
            Some(ordinal) => ordinal,
            None => {
                return None;
            },
        };
        if !time_of_day_exists(hour, minute, second, nanosecond) {
            return None;
        }
        proof {
            lemma_calendar_to_ordinal(year as int, month as int, day as int);
        }
        Some(Timestamp { year, ordinal, hour, minute, second, nanosecond })
    }

    /// The timestamp of a year, a day of that year and a time of day, or
    /// nothing if the fields name no instant.
    pub fn from_ordinal(
        year: i32,
        ordinal: u16,
        hour: u8,
        minute: u8,
        second: u8,
        nanosecond: u32,
    ) -> (r: Option<Timestamp>)
        ensures
            r is Some <==> valid_ordinal_date(year as int, ordinal as int) && valid_time_of_day(
                hour as int,
                minute as int,
                second as int,
                nanosecond as int,
            ),
            r is Some ==> r.unwrap()@ == (DateTime {
                year: year as int,
                ordinal: ordinal as int,
                hour: hour as int,
                minute: minute as int,
                second: second as int,
                nanosecond: nanosecond as int,
            }),
    {
        if year < MIN_YEAR || year > MAX_YEAR || ordinal < 1 {
            return None;
        }
        let length: u16 = if is_leap_year(year) {
            366
        } else {
            365
        };
        if ordinal > length || !time_of_day_exists(hour, minute, second, nanosecond) {
            return None;
        }
        Some(Timestamp { year, ordinal, hour, minute, second, nanosecond })
    }

    /// The year, from -9999 to 9999.
    pub fn year(&self) -> (r: i32)
        ensures
            r == self@.year,
            MIN_YEAR <= r <= MAX_YEAR,
    {
        proof {
            use_type_invariant(self);
        }
        self.year
    }

    /// The day of the year, from 1.
    pub fn ordinal(&self) -> (r: u16)
        ensures
            r == self@.ordinal,
            1 <= r <= days_in_year(self@.year),
    {
        proof {
            use_type_invariant(self);
        }
        self.ordinal
    }

    /// The month of the year, from 1 to 12.
    pub fn month(&self) -> (r: u8)
        ensures
            r == self@.month(),
            1 <= r <= 12,
    {
        self.to_calendar_date().1
    }

    /// The day of the month, from 1.
    pub fn day(&self) -> (r: u8)
        ensures
            r == self@.day(),
            1 <= r <= 31,
    {
        proof {
            use_type_invariant(self);
            lemma_ordinal_to_calendar(self@.year, self@.ordinal);
        }
        self.to_calendar_date().2
    }

    /// The hour of the day, below 24.
    pub fn hour(&self) -> (r: u8)
        ensures
            r == self@.hour,
            r < 24,
    {
        proof {
            use_type_invariant(self);
        }
        self.hour
    }

    /// The minute of the hour, below 60.
    pub fn minute(&self) -> (r: u8)
        ensures
            r == self@.minute,
            r < 60,
    {
        proof {
            use_type_invariant(self);
        }
        self.minute
    }

    /// The second of the minute, below 60.
    pub fn second(&self) -> (r: u8)
        ensures
            r == self@.second,
            r < 60,
    {
        proof {
            use_type_invariant(self);
        }
        self.second
    }

    /// The nanosecond of the second, below one thousand million.
    pub fn nanosecond(&self) -> (r: u32)
        ensures
            r == self@.nanosecond,
            r < 1_000_000_000,
    {
        proof {
            use_type_invariant(self);
        }
        self.nanosecond
    }

    /// The hour, minute, second and nanosecond of the time of day.
    pub fn as_hms_nano(&self) -> (r: (u8, u8, u8, u32))
        ensures
            r.0 == self@.hour,
            r.1 == self@.minute,
            r.2 == self@.second,
            r.3 == self@.nanosecond,
            valid_time_of_day(r.0 as int, r.1 as int, r.2 as int, r.3 as int),
    {
        proof {
            use_type_invariant(self);
        }
        (self.hour, self.minute, self.second, self.nanosecond)
    }

    /// Get the year, month, and day.
    ///
    /// Finds the month by the branch-free threshold probe of
    /// `to_calendar_date_x16`.
    pub fn to_calendar_date(&self) -> (r: (i32, u8, u8))
        ensures
            r.0 == self@.year,
            r.1 == self@.month(),
            r.2 == self@.day(),
            valid_calendar_date(r.0 as int, r.1 as int, r.2 as int),
    {
        proof {
            use_type_invariant(self);
            lemma_ordinal_to_calendar(self@.year, self@.ordinal);
        }
        to_calendar_date_x16(self.year, self.ordinal)
    }

    /// Get the year, month, and day, by the date library's own conversion.
    pub fn to_calendar_date_scalar(&self) -> (r: (i32, u8, u8))
        ensures
            r.0 == self@.year,
            r.1 == self@.month(),
            r.2 == self@.day(),
    {
        proof {
            use_type_invariant(self);
        }
        match calendar_from_ordinal(self.year, self.ordinal) {
            Some(date) => date,
            None => (self.year, 1, 1),
        }
    }

    /// The same day with another time of day, or nothing if the fields
    /// name no time of day.
    pub fn replace_time(self, hour: u8, minute: u8, second: u8, nanosecond: u32) -> (r: Option<
        Timestamp,
    >)
        ensures
            r is Some <==> valid_time_of_day(
                hour as int,
                minute as int,
                second as int,
                nanosecond as int,
            ),
            r is Some ==> r.unwrap()@ == (DateTime {
                hour: hour as int,
                minute: minute as int,
                second: second as int,
                nanosecond: nanosecond as int,
                ..self@
            }),
    {
        proof {
            use_type_invariant(self);
        }
        if !time_of_day_exists(hour, minute, second, nanosecond) {
            return None;
        }
        Some(
            Timestamp { year: self.year, ordinal: self.ordinal, hour, minute, second, nanosecond },
        )
    }

    /// Computes `self + duration`, returning `None` if an overflow occurred.
    ///
    /// The sum is the date library's: see `instant_plus`.
    pub fn checked_add(self, duration: Duration) -> (r: Option<Timestamp>)
        ensures
            view_of(r) == instant_plus(self@, duration@),
    {
        plain_checked_add(self, duration)
    }

    /// Computes `self - duration`, returning `None` if an overflow occurred.
    ///
    /// The difference is the date library's: see `instant_minus`.
    pub fn checked_sub(self, duration: Duration) -> (r: Option<Timestamp>)
        ensures
            view_of(r) == instant_minus(self@, duration@),
    {
        plain_checked_sub(self, duration)
    }

    /// The first timestamp there is: midnight of -9999-01-01.
    pub fn min() -> (r: Timestamp)
        ensures
            r@ == min_instant(),
    {
        Timestamp { year: -9999, ordinal: 1, hour: 0, minute: 0, second: 0, nanosecond: 0 }
    }

    /// The last timestamp there is: the last nanosecond of 9999-12-31.
    pub fn max() -> (r: Timestamp)
        ensures
            r@ == max_instant(),
    {
        Timestamp {
            year: 9999,
            ordinal: 365,
            hour: 23,
            minute: 59,
            second: 59,
            nanosecond: 999_999_999,
        }
    }

    /// Returns the amount of time elapsed from an earlier point in time.
    ///
    /// The span is the date library's: see `span_between`.
    pub fn duration_since(self, earlier: Timestamp) -> (r: Duration)
        ensures
            r@ == span_between(self@, earlier@),
    {
        match plain_difference(self, earlier) {
            Some(span) => span,
            None => Duration::seconds(0),
        }
    }

    /// The timestamp `found`, or where none was found the end of time: the
    /// first timestamp if the search went backward, the last if it went
    /// forward.
    pub fn saturate(found: Option<Timestamp>, backward: bool) -> (r: Timestamp)
        ensures
            r@ == saturated(view_of(found), backward),
            found is Some ==> r == found.unwrap(),
    {
        match found {
            Some(ts) => ts,
            None => if backward {
                Timestamp::min()
            } else {
                Timestamp::max()
            },
        }
    }

    /// Computes `self + duration`, saturating value on overflow.
    pub fn saturating_add(self, duration: Duration) -> (r: Timestamp)
        ensures
            r@ == saturated_plus(self@, duration@),
    {
        Timestamp::saturate(self.checked_add(duration), duration.is_negative())
    }

    /// Computes `self - duration`, saturating value on overflow.
    pub fn saturating_sub(self, duration: Duration) -> (r: Timestamp)
        ensures
            r@ == saturated_minus(self@, duration@),
    {
        Timestamp::saturate(self.checked_sub(duration), !duration.is_negative())
    }
}

} // verus!
