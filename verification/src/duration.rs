//! A signed span of time, in seconds and nanoseconds.

use vstd::prelude::*;

verus! {

/// What a duration stands for: whole seconds, and nanoseconds of the same
/// sign.
pub struct Span {
    pub seconds: int,
    pub nanoseconds: int,
}

impl Span {
    /// Whether the two parts agree: the nanoseconds stay below a second and
    /// never point the other way than the seconds.
    pub open spec fn valid(self) -> bool {
        &&& -1_000_000_000 < self.nanoseconds < 1_000_000_000
        &&& self.seconds > 0 ==> self.nanoseconds >= 0
        &&& self.seconds < 0 ==> self.nanoseconds <= 0
    }

    /// The span in nanoseconds.
    pub open spec fn total_nanoseconds(self) -> int {
        self.seconds * 1_000_000_000 + self.nanoseconds
    }
}

/// The quotient of `a` by a positive `b`, rounded toward zero.
pub open spec fn quotient_toward_zero(a: int, b: int) -> int {
    if a >= 0 {
        a / b
    } else {
        -((-a) / b)
    }
}

/// What is left of `a` after `quotient_toward_zero`: it has the sign of
/// `a`.
pub open spec fn remainder_toward_zero(a: int, b: int) -> int {
    a - b * quotient_toward_zero(a, b)
}

/// A span of time with nanosecond precision, forward or backward.
#[derive(Clone, Copy, Debug, PartialEq, Eq, Hash, PartialOrd, Ord, Structural)]
pub struct Duration {
    pub(crate) seconds: i64,
    pub(crate) nanoseconds: i32,
}

impl View for Duration {
    type V = Span;

    open(crate) spec fn view(&self) -> Span {
        Span { seconds: self.seconds as int, nanoseconds: self.nanoseconds as int }
    }
}

impl Duration {
    #[verifier::type_invariant]
    pub open(crate) spec fn well_formed(self) -> bool {
        self@.valid()
    }

    /// The span of the given parts, or nothing if the nanoseconds reach a
    /// second or point the other way than the seconds.
    pub fn from_parts(seconds: i64, nanoseconds: i32) -> (r: Option<Duration>)
        ensures
            r is Some <==> (Span { seconds: seconds as int, nanoseconds: nanoseconds as int }).valid(),
            r is Some ==> r.unwrap()@ == (Span {
                seconds: seconds as int,
                nanoseconds: nanoseconds as int,
            }),
    {
        if nanoseconds <= -1_000_000_000 || nanoseconds >= 1_000_000_000 {
            return None;
        }
        if (seconds > 0 && nanoseconds < 0) || (seconds < 0 && nanoseconds > 0) {
            return None;
        }
        Some(Duration { seconds, nanoseconds })
    }

    /// A span of whole seconds.
    pub fn seconds(seconds: i64) -> (r: Duration)
        ensures
            r@ == (Span { seconds: seconds as int, nanoseconds: 0 }),
    {
        Duration { seconds, nanoseconds: 0 }
    }

    /// A span of whole milliseconds.
    pub fn milliseconds(milliseconds: i64) -> (r: Duration)
        ensures
            r@.seconds == quotient_toward_zero(milliseconds as int, 1000),
            r@.nanoseconds == remainder_toward_zero(milliseconds as int, 1000) * 1_000_000,
            r@.total_nanoseconds() == milliseconds * 1_000_000,
    {
        let seconds = milliseconds / 1000;
        let rest = milliseconds % 1000;
        Duration { seconds, nanoseconds: (rest * 1_000_000) as i32 }
    }

    /// The whole seconds of the span.
    pub fn whole_seconds(&self) -> (r: i64)
        ensures
            r == self@.seconds,
    {
        self.seconds
    }

    /// The nanoseconds past the whole seconds, with the sign of the span.
    pub fn subsec_nanoseconds(&self) -> (r: i32)
        ensures
            r == self@.nanoseconds,
            -1_000_000_000 < r < 1_000_000_000,
    {
        proof {
            use_type_invariant(self);
        }
        self.nanoseconds
    }

    /// The whole milliseconds of the span, rounded toward zero.
    pub fn whole_milliseconds(&self) -> (r: i128)
        ensures
            r == quotient_toward_zero(self@.total_nanoseconds(), 1_000_000),
    {
        proof {
            use_type_invariant(self);
        }
        let seconds: i128 = self.seconds as i128;
        let nanoseconds: i128 = self.nanoseconds as i128;
        seconds * 1000 + nanoseconds / 1_000_000
    }

    /// Whether the span points backward.
    pub fn is_negative(&self) -> (r: bool)
        ensures
            r == (self@.total_nanoseconds() < 0),
    {
        proof {
            use_type_invariant(self);
        }
        self.seconds < 0 || self.nanoseconds < 0
    }
}

} // verus!
