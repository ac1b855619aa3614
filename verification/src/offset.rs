//! A fixed offset from UTC, in whole minutes.

use vstd::prelude::*;

verus! {

/// What an offset stands for: a direction, and hours and minutes.
pub struct Offset {
    /// West of UTC: written with `-`.
    pub negative: bool,
    pub hours: int,
    pub minutes: int,
}

impl Offset {
    /// Whether the fields name an offset: below 24 hours, below 60 minutes.
    pub open spec fn valid(self) -> bool {
        0 <= self.hours < 24 && 0 <= self.minutes < 60
    }

    /// Whether the offset moves nothing, whatever its sign.
    pub open spec fn is_zero(self) -> bool {
        self.hours == 0 && self.minutes == 0
    }

    /// The size of the offset in seconds, without its sign.
    pub open spec fn seconds(self) -> int {
        3600 * self.hours + 60 * self.minutes
    }
}

/// The offset of UTC itself.
pub open spec fn utc() -> Offset {
    Offset { negative: false, hours: 0, minutes: 0 }
}

/// The offset that `from_hms` makes of three signed components: the size of
/// the hours and minutes, with the sign of the most significant component
/// that is not zero.
pub open spec fn offset_from_hms(hours: int, minutes: int, seconds: int) -> Offset {
    Offset {
        negative: hours < 0 || (hours == 0 && (minutes < 0 || (minutes == 0 && seconds < 0))),
        hours: if hours < 0 {
            -hours
        } else {
            hours
        },
        minutes: if minutes < 0 {
            -minutes
        } else {
            minutes
        },
    }
}

/// An offset from UTC, written literally after a timestamp: no time zone,
/// no daylight saving, only a sign and `HH:MM`.
#[derive(Clone, Copy, Debug, PartialEq, Eq, Hash, Structural)]
pub struct UtcOffset {
    pub(crate) negative: bool,
    pub(crate) hours: u8,
    pub(crate) minutes: u8,
}

impl View for UtcOffset {
    type V = Offset;

    open(crate) spec fn view(&self) -> Offset {
        Offset { negative: self.negative, hours: self.hours as int, minutes: self.minutes as int }
    }
}

impl UtcOffset {
    #[verifier::type_invariant]
    pub open(crate) spec fn well_formed(self) -> bool {
        self@.valid()
    }

    /// The offset of UTC itself: `+00:00`.
    pub fn utc() -> (r: UtcOffset)
        ensures
            r@ == utc(),
    {
        UtcOffset { negative: false, hours: 0, minutes: 0 }
    }

    /// The offset of the given hours, minutes and seconds, or nothing if a
    /// component is out of range (hours beyond 23, minutes or seconds
    /// beyond 59, either way). The most significant component that is not
    /// zero gives the sign; the seconds give no more than that.
    pub fn from_hms(hours: i8, minutes: i8, seconds: i8) -> (r: Option<UtcOffset>)
        ensures
            r is Some <==> -23 <= hours <= 23 && -59 <= minutes <= 59 && -59 <= seconds <= 59,
            r is Some ==> r.unwrap()@ == offset_from_hms(
                hours as int,
                minutes as int,
                seconds as int,
            ),
    {
        if hours < -23 || hours > 23 || minutes < -59 || minutes > 59 || seconds < -59 || seconds
            > 59 {
            return None;
        }
        let negative = hours < 0 || (hours == 0 && (minutes < 0 || (minutes == 0 && seconds < 0)));
        let hours: u8 = if hours < 0 {
            (-hours) as u8
        } else {
            hours as u8
        };
        let minutes: u8 = if minutes < 0 {
            (-minutes) as u8
        } else {
            minutes as u8
        };
        Some(UtcOffset { negative, hours, minutes })
    }

    /// Whether the offset is written with `-`.
    pub fn is_negative(&self) -> (r: bool)
        ensures
            r == self@.negative,
    {
        self.negative
    }

    /// The hours and minutes of the offset, without its sign.
    pub fn as_hm(&self) -> (r: (u8, u8))
        ensures
            r.0 == self@.hours,
            r.1 == self@.minutes,
            r.0 < 24,
            r.1 < 60,
    {
        proof {
            use_type_invariant(self);
        }
        (self.hours, self.minutes)
    }
}

} // verus!
