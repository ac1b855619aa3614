//! The layouts a timestamp can be written in: with or without punctuation,
//! with `Z` or a numeric offset, with zero to nine fractional digits.

use vstd::prelude::*;

verus! {

/// The largest number of fractional-second digits a layout can have.
pub const MAX_PRECISION: u8 = 9;

/// The length of the longest layout, sign byte included.
pub const MAX_LEN: usize = 36;

/// What a format string stands for: three independent choices.
pub struct Layout {
    /// `YYYY-MM-DDTHH:MM:SS` rather than `YYYYMMDDTHHMMSS`.
    pub punctuated: bool,
    /// `+HH:MM` at the end rather than `Z`.
    pub offset: bool,
    /// The number of digits after the decimal point; with zero digits there
    /// is no point either.
    pub precision: int,
}

impl Layout {
    /// Whether the layout exists: at most nine fractional digits.
    pub open spec fn valid(self) -> bool {
        0 <= self.precision <= MAX_PRECISION
    }

    /// The number of bytes between the year and the month, the month and
    /// the day, the hour and the minute, and the minute and the second.
    pub open spec fn separator_len(self) -> int {
        if self.punctuated {
            1
        } else {
            0
        }
    }

    /// The number of bytes of the fraction: the point and the digits, or
    /// nothing.
    pub open spec fn fraction_len(self) -> int {
        if self.precision > 0 {
            1 + self.precision
        } else {
            0
        }
    }

    /// The number of bytes of the zone: `Z`, or a sign and `HH:MM`.
    pub open spec fn zone_len(self) -> int {
        if self.offset {
            6
        } else {
            1
        }
    }

    /// The exact number of bytes of a timestamp in this layout: a sign, four
    /// digits of year, two each of month, day, hour, minute and second, the
    /// `T`, four separators if punctuated, the fraction, and the zone.
    pub open spec fn len(self) -> int {
        1 + 4 + 2 + 2 + 1 + 2 + 2 + 2 + 4 * self.separator_len() + self.fraction_len()
            + self.zone_len()
    }
}

/// Marks the types of this crate that may describe a layout.
pub trait Sealed {

}

/// A description of a layout that exists, with the length of its text.
pub trait IsValidFormat: Sealed {
    /// The layout described.
    spec fn layout(&self) -> Layout;

    /// The exact number of bytes of a timestamp in this layout, sign byte
    /// included.
    fn length(&self) -> (n: usize)
        ensures
            self.layout().valid(),
            n == self.layout().len(),
            17 <= n <= MAX_LEN,
    ;
}

/// One of the forty ways to lay out a timestamp. A value of this type
/// always has at most nine fractional digits.
#[derive(Clone, Copy, Debug, PartialEq, Eq, Hash, Structural)]
pub struct FormatString {
    pub(crate) punctuated: bool,
    pub(crate) offset: bool,
    pub(crate) precision: u8,
}

impl View for FormatString {
    type V = Layout;

    open(crate) spec fn view(&self) -> Layout {
        Layout {
            punctuated: self.punctuated,
            offset: self.offset,
            precision: self.precision as int,
        }
    }
}

impl Sealed for FormatString {

}

impl IsValidFormat for FormatString {
    open(crate) spec fn layout(&self) -> Layout {
        self@
    }

    fn length(&self) -> (n: usize) {
        proof {
            use_type_invariant(self);
        }
        let separators: usize = if self.punctuated {
            4
        } else {
            0
        };
        let fraction: usize = if self.precision > 0 {
            1 + self.precision as usize
        } else {
            0
        };
        let zone: usize = if self.offset {
            6
        } else {
            1
        };
        16 + separators + fraction + zone
    }
}

impl FormatString {
    #[verifier::type_invariant]
    pub open(crate) spec fn well_formed(self) -> bool {
        self@.valid()
    }

    /// The layout with these three choices, or nothing if `precision` is
    /// above nine.
    pub fn new(punctuated: bool, offset: bool, precision: u8) -> (r: Option<FormatString>)
        ensures
            r is Some <==> precision <= MAX_PRECISION,
            r is Some ==> r.unwrap()@ == (Layout {
                punctuated,
                offset,
                precision: precision as int,
            }),
    {
        if precision <= MAX_PRECISION {
            Some(FormatString { punctuated, offset, precision })
        } else {
            None
        }
    }

    /// Whether the date and the time are punctuated.
    pub fn is_punctuated(&self) -> (r: bool)
        ensures
            r == self@.punctuated,
    {
        self.punctuated
    }

    /// Whether the text ends in a numeric offset rather than `Z`.
    pub fn has_offset(&self) -> (r: bool)
        ensures
            r == self@.offset,
    {
        self.offset
    }

    /// The number of fractional-second digits, 0 to 9.
    pub fn precision(&self) -> (r: u8)
        ensures
            r == self@.precision,
            r <= MAX_PRECISION,
    {
        proof {
            use_type_invariant(self);
        }
        self.precision
    }
}

} // verus!
