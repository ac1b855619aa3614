//! The binary form of a timestamp: a count of milliseconds.

use vstd::prelude::*;

use crate::duration::{quotient_toward_zero, Duration, Span};
use crate::time_crate::{instant_plus, span_between};
use crate::timestamp::{unix_epoch, view_of, DateTime, Timestamp};

verus! {

/// The whole milliseconds from the Unix epoch to `at`, as the date library
/// counts them, rounded toward the epoch.
pub open spec fn milliseconds_since_epoch(at: DateTime) -> int {
    quotient_toward_zero(span_between(at, unix_epoch()).total_nanoseconds(), 1_000_000)
}

/// The span of `milliseconds` milliseconds.
pub open spec fn span_of_milliseconds(milliseconds: int) -> Span {
    Span {
        seconds: quotient_toward_zero(milliseconds, 1000),
        nanoseconds: (milliseconds - 1000 * quotient_toward_zero(milliseconds, 1000)) * 1_000_000,
    }
}

/// The instant `found`, or the Unix epoch where none was found.
pub open spec fn or_epoch(found: Option<DateTime>) -> DateTime {
    match found {
        Some(at) => at,
        None => unix_epoch(),
    }
}

/// The instant that lies `milliseconds` after the Unix epoch, or the epoch
/// itself where the date library finds no such instant.
pub open spec fn instant_of_milliseconds(milliseconds: int) -> DateTime {
    or_epoch(instant_plus(unix_epoch(), span_of_milliseconds(milliseconds)))
}

/// The instant that lies `seconds` after the Unix epoch, where the date
/// library finds one.
pub open spec fn instant_of_seconds(seconds: int) -> Option<DateTime> {
    instant_plus(unix_epoch(), Span { seconds, nanoseconds: 0 })
}

impl Timestamp {
    /// The timestamp that lies `seconds` after the Unix epoch, or nothing
    /// if that leads out of the calendar.
    pub fn from_unix_seconds(seconds: i64) -> (r: Option<Timestamp>)
        ensures
            view_of(r) == instant_of_seconds(seconds as int),
    {
        Timestamp::unix_epoch().checked_add(Duration::seconds(seconds))
    }

    /// The timestamp that lies `milliseconds` after the Unix epoch, or
    /// nothing if that leads out of the calendar.
    pub fn from_unix_milliseconds(milliseconds: i64) -> (r: Option<Timestamp>)
        ensures
            view_of(r) == instant_plus(unix_epoch(), span_of_milliseconds(milliseconds as int)),
    {
        Timestamp::unix_epoch().checked_add(Duration::milliseconds(milliseconds))
    }

    /// As `from_unix_milliseconds`, for a count without sign.
    pub fn from_unix_milliseconds_unsigned(milliseconds: u64) -> (r: Option<Timestamp>)
        ensures
            view_of(r) == instant_plus(unix_epoch(), span_of_milliseconds(milliseconds as int)),
    {
        let seconds = (milliseconds / 1000) as i64;
        let nanoseconds = ((milliseconds % 1000) * 1_000_000) as i32;
        match Duration::from_parts(seconds, nanoseconds) {
            Some(span) => Timestamp::unix_epoch().checked_add(span),
            None => None,
        }
    }

    /// The timestamp `found`, or the Unix epoch where none was found.
    pub fn or_unix_epoch(found: Option<Timestamp>) -> (r: Timestamp)
        ensures
            r@ == or_epoch(view_of(found)),
            found is Some ==> r == found.unwrap(),
    {
        match found {
            Some(ts) => ts,
            None => Timestamp::unix_epoch(),
        }
    }

    /// The whole milliseconds from the Unix epoch to this timestamp,
    /// rounded toward the epoch; a count beyond 64 bits keeps its low 64
    /// bits.
    pub fn unix_milliseconds(self) -> (r: i64)
        ensures
            r == milliseconds_since_epoch(self@) as i64,
    {
        let milliseconds = self.duration_since(Timestamp::unix_epoch()).whole_milliseconds();
        #[verifier::truncate]
        (milliseconds as i64)
    }
}

/// Timestamp as a 64-bit signed millisecond offset from the UNIX Epoch.
///
/// What lies below a millisecond is not kept.
#[derive(Debug, Clone, Copy, PartialEq, Eq, PartialOrd, Ord, Hash, Structural)]
pub struct ArchivedTimestamp(pub i64);

impl ArchivedTimestamp {
    /// Get the raw millisecond offset
    pub fn get(self) -> (r: i64)
        ensures
            r == self.0,
    {
        self.0
    }

    /// The milliseconds from the Unix epoch to `ts`, rounded toward the
    /// epoch; a count beyond 64 bits keeps its low 64 bits.
    pub fn from_timestamp(ts: Timestamp) -> (r: ArchivedTimestamp)
        ensures
            r.0 == milliseconds_since_epoch(ts@) as i64,
    {
        ArchivedTimestamp(ts.unix_milliseconds())
    }

    /// The timestamp of the offset, or the Unix epoch for an offset that
    /// leads out of the calendar.
    pub fn to_timestamp(self) -> (r: Timestamp)
        ensures
            r@ == instant_of_milliseconds(self.0 as int),
    {
        // should never fail for a count that came from a timestamp, but
        // provide a sane fallback anyway
        Timestamp::or_unix_epoch(Timestamp::from_unix_milliseconds(self.0))
    }
}

} // verus!
