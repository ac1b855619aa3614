//! Preconfigured formats

use vstd::prelude::*;

use crate::layout::{FormatString, Layout};

verus! {

/// `2023-03-24T07:05:59.005Z`
pub fn full_milliseconds() -> (r: FormatString)
    ensures
        r@ == (Layout { punctuated: true, offset: false, precision: 3 }),
{
    FormatString { punctuated: true, offset: false, precision: 3 }
}

/// `2023-03-24T07:05:59.005000Z`
pub fn full_microseconds() -> (r: FormatString)
    ensures
        r@ == (Layout { punctuated: true, offset: false, precision: 6 }),
{
    FormatString { punctuated: true, offset: false, precision: 6 }
}

/// `2023-03-24T07:05:59.005432101Z`
pub fn full_nanoseconds() -> (r: FormatString)
    ensures
        r@ == (Layout { punctuated: true, offset: false, precision: 9 }),
{
    FormatString { punctuated: true, offset: false, precision: 9 }
}

/// `2023-03-24T07:05:59.005+05:00`
pub fn full_milliseconds_offset() -> (r: FormatString)
    ensures
        r@ == (Layout { punctuated: true, offset: true, precision: 3 }),
{
    FormatString { punctuated: true, offset: true, precision: 3 }
}

/// `20230324T070559.005Z`
pub fn short_milliseconds() -> (r: FormatString)
    ensures
        r@ == (Layout { punctuated: false, offset: false, precision: 3 }),
{
    FormatString { punctuated: false, offset: false, precision: 3 }
}

} // verus!
