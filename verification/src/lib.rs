//! ISO 8601 timestamps: a fixed-layout formatter and a tolerant parser,
//! with contracts stated over byte sequences and proved by Verus.
//!
//! A [`Timestamp`] is an instant in UTC, to the nanosecond, between the
//! years -9999 and 9999. It is written in one of forty layouts, each of a
//! fixed length ([`FormatString`], [`TimestampStr`]), and read back from
//! any of them and from the variations that are met in practice: a space
//! for the `T`, a comma for the point, no seconds, `UTC` for `Z`, U+2212
//! for `-`, a second of 60.
//!
//! What is proved, by module:
//!
//! - [`digits`]: decoding inverts encoding; the bit-parallel decoders and
//!   the table-driven encoder compute the decimal value.
//! - [`calendar`]: the leap-year test is the Gregorian rule; the lane-wise
//!   search for the month agrees with the calendar.
//! - [`render`], [`format`]: the formatter writes exactly the text of the
//!   fields, of exactly the length of the layout, cutting the fraction and
//!   never rounding it.
//! - [`parse`]: the parser returns exactly what [`parse::parsed`] says of
//!   the bytes, and nothing for every other text.
//! - [`roundtrip`], [`reading`]: a formatted timestamp is read back as it
//!   was written; the signs of the year; strict and lenient reading.
//!
//! What is believed: the contracts in [`time_crate`], which holds every call
//! into the `time` crate, and of one call into `core::str` in [`ts_str`].

pub mod archived;
pub mod ascii;
pub mod calendar;
pub mod digits;
pub mod duration;
pub mod format;
pub mod formats;
pub mod layout;
pub mod offset;
pub mod parse;
pub mod reading;
pub mod render;
pub mod roundtrip;
pub mod time_crate;
pub mod timestamp;
pub mod ts_str;

pub use crate::archived::ArchivedTimestamp;
pub use crate::duration::Duration;
pub use crate::layout::FormatString;
pub use crate::offset::UtcOffset;
pub use crate::timestamp::Timestamp;
pub use crate::ts_str::TimestampStr;
