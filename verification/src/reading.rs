//! Laws of reading: a text is read from where reading starts, whatever
//! stands before; the signs of the year; strict and lenient reading.

use vstd::prelude::*;

use crate::ascii::{COLON, HYPHEN, MINUS_SIGN_0, MINUS_SIGN_1, MINUS_SIGN_2, PLUS};
use crate::digits::is_digit;
use crate::parse::{
    after_mark, digit_run_end, field, parsed, parsed_from, scan_clock, scan_date, scan_zone,
    year_is_negative, year_sign_len, ClockScan, DateScan,
};

verus! {

/// A date found `k` bytes further to the left.
pub open spec fn date_moved(scan: Option<DateScan>, k: int) -> Option<DateScan> {
    match scan {
        Some(date) => Some(DateScan { end: date.end - k, ..date }),
        None => None,
    }
}

/// A time of day found `k` bytes further to the left.
pub open spec fn clock_moved(scan: Option<ClockScan>, k: int) -> Option<ClockScan> {
    match scan {
        Some(clock) => Some(ClockScan { end: clock.end - k, ..clock }),
        None => None,
    }
}

/// A field reads the same in a text and in the text without its first `k`
/// bytes, `k` places to the left.
pub proof fn lemma_field_moved(b: Seq<u8>, k: int, pos: int, width: int, strict: bool)
    requires
        0 <= k <= b.len(),
        0 <= pos,
        0 <= width,
    ensures
        field(b.skip(k), pos, width, strict) == field(b, pos + k, width, strict),
{
    if pos + k + width <= b.len() {
        assert(b.skip(k).subrange(pos, pos + width) =~= b.subrange(pos + k, pos + k + width));
    }
}

/// A run of digits that begins inside a text ends inside it, at or after
/// its beginning.
pub proof fn lemma_digit_run_bounds(b: Seq<u8>, pos: int)
    requires
        0 <= pos,
    ensures
        pos <= digit_run_end(b, pos),
        pos <= b.len() ==> digit_run_end(b, pos) <= b.len(),
    decreases b.len() - pos,
{
    if pos < b.len() && is_digit(b[pos]) {
        lemma_digit_run_bounds(b, pos + 1);
    }
}

/// A run of digits ends at the same byte in a text and in the text without
/// its first `k` bytes.
pub proof fn lemma_digit_run_moved(b: Seq<u8>, k: int, pos: int)
    requires
        0 <= k <= b.len(),
        0 <= pos,
    ensures
        digit_run_end(b.skip(k), pos) + k == digit_run_end(b, pos + k),
    decreases b.len() - pos - k,
{
    if pos + k < b.len() && is_digit(b[pos + k]) {
        lemma_digit_run_moved(b, k, pos + 1);
    }
}

/// A date that was found ends after it began.
pub proof fn lemma_date_end(b: Seq<u8>, start: int, strict: bool)
    requires
        0 <= start,
    ensures
        scan_date(b, start, strict) is Some ==> start + 8 <= scan_date(
            b,
            start,
            strict,
        ).unwrap().end <= b.len(),
{
    reveal(scan_date);
}

/// A time of day that was found ends after it began.
pub proof fn lemma_clock_end(b: Seq<u8>, pos: int, strict: bool)
    requires
        0 <= pos,
    ensures
        scan_clock(b, pos, strict) is Some ==> pos + 4 <= scan_clock(b, pos, strict).unwrap().end,
{
    reveal(scan_clock);
    let minute_pos = after_mark(b, pos + 2, COLON);
    let second_pos = after_mark(b, minute_pos + 2, COLON);
    lemma_digit_run_bounds(b, second_pos + 3);
}

/// The date reads the same in a text and in the text without its first `k`
/// bytes.
pub proof fn lemma_date_moved(b: Seq<u8>, k: int, start: int, strict: bool)
    requires
        0 <= k <= b.len(),
        0 <= start,
    ensures
        scan_date(b.skip(k), start, strict) == date_moved(scan_date(b, start + k, strict), k),
{
    reveal(scan_date);
    let c = b.skip(k);
    lemma_field_moved(b, k, start, 4, strict);
    let month_pos = after_mark(c, start + 4, HYPHEN);
    assert(month_pos + k == after_mark(b, start + 4 + k, HYPHEN));
    lemma_field_moved(b, k, month_pos, 2, strict);
    let day_pos = after_mark(c, month_pos + 2, HYPHEN);
    assert(day_pos + k == after_mark(b, month_pos + 2 + k, HYPHEN));
    lemma_field_moved(b, k, day_pos, 2, strict);
}

/// The time of day reads the same in a text and in the text without its
/// first `k` bytes.
pub proof fn lemma_clock_moved(b: Seq<u8>, k: int, pos: int, strict: bool)
    requires
        0 <= k <= b.len(),
        0 <= pos,
    ensures
        scan_clock(b.skip(k), pos, strict) == clock_moved(scan_clock(b, pos + k, strict), k),
{
    reveal(scan_clock);
    let c = b.skip(k);
    lemma_field_moved(b, k, pos, 2, strict);
    let minute_pos = after_mark(c, pos + 2, COLON);
    assert(minute_pos + k == after_mark(b, pos + 2 + k, COLON));
    lemma_field_moved(b, k, minute_pos, 2, strict);
    let second_pos = after_mark(c, minute_pos + 2, COLON);
    assert(second_pos + k == after_mark(b, minute_pos + 2 + k, COLON));
    lemma_field_moved(b, k, second_pos, 2, strict);
    let point = second_pos + 2;
    lemma_digit_run_moved(b, k, point + 1);
    let end = digit_run_end(c, point + 1);
    if point + 1 <= end && end + k <= b.len() {
        assert(c.subrange(point + 1, end) =~= b.subrange(point + 1 + k, end + k));
    }
    lemma_digit_run_bounds(c, point + 1);
}

/// The zone reads the same in a text and in the text without its first `k`
/// bytes.
pub proof fn lemma_zone_moved(b: Seq<u8>, k: int, pos: int, strict: bool)
    requires
        0 <= k <= b.len(),
        0 <= pos,
    ensures
        scan_zone(b.skip(k), pos, strict) == scan_zone(b, pos + k, strict),
{
    reveal(scan_zone);
    let c = b.skip(k);
    if pos < c.len() {
        let hours_pos = if c[pos] == MINUS_SIGN_0 {
            pos + 3
        } else {
            pos + 1
        };
        lemma_field_moved(b, k, hours_pos, 2, strict);
        let minutes_pos = after_mark(c, hours_pos + 2, COLON);
        assert(minutes_pos + k == after_mark(b, hours_pos + 2 + k, COLON));
        lemma_field_moved(b, k, minutes_pos, 2, strict);
    }
}

/// What a text says from some place on does not depend on what lies before
/// that place.
pub proof fn lemma_parsed_from_moved(
    b: Seq<u8>,
    k: int,
    start: int,
    negative: bool,
    strict: bool,
)
    requires
        0 <= k <= b.len(),
        0 <= start,
    ensures
        parsed_from(b.skip(k), start, negative, strict) == parsed_from(
            b,
            start + k,
            negative,
            strict,
        ),
{
    let c = b.skip(k);
    lemma_date_moved(b, k, start, strict);
    match scan_date(c, start, strict) {
        None => {},
        Some(date) => {
            lemma_date_end(c, start, strict);
            lemma_clock_moved(b, k, date.end + 1, strict);
            match scan_clock(c, date.end + 1, strict) {
                None => {},
                Some(clock) => {
                    lemma_clock_end(c, date.end + 1, strict);
                    lemma_zone_moved(b, k, clock.end, strict);
                },
            }
        },
    }
}

/// Sign handling in parsing: `-` and the minus sign U+2212 before a text
/// say the same.
pub proof fn lemma_minus_sign_is_hyphen(rest: Seq<u8>, strict: bool)
    ensures
        parsed(seq![HYPHEN] + rest, strict) == parsed(
            seq![MINUS_SIGN_0, MINUS_SIGN_1, MINUS_SIGN_2] + rest,
            strict,
        ),
        parsed(seq![HYPHEN] + rest, strict) == parsed_from(rest, 0, true, strict),
{
    let short = seq![HYPHEN] + rest;
    let long = seq![MINUS_SIGN_0, MINUS_SIGN_1, MINUS_SIGN_2] + rest;
    assert(short.skip(1) =~= rest);
    assert(long.skip(3) =~= rest);
    lemma_parsed_from_moved(short, 1, 0, true, strict);
    lemma_parsed_from_moved(long, 3, 0, true, strict);
    assert(year_sign_len(short) == 1 && year_is_negative(short));
    assert(year_sign_len(long) == 3 && year_is_negative(long));
}

/// Sign handling in parsing: a `+` before a text with a bare year changes
/// nothing; with it or without, the year is not negative.
pub proof fn lemma_plus_is_optional(rest: Seq<u8>, strict: bool)
    requires
        year_sign_len(rest) == 0,
    ensures
        parsed(seq![PLUS] + rest, strict) == parsed(rest, strict),
        parsed(rest, strict) == parsed_from(rest, 0, false, strict),
{
    let signed = seq![PLUS] + rest;
    assert(signed.skip(1) =~= rest);
    lemma_parsed_from_moved(signed, 1, 0, false, strict);
    assert(year_sign_len(signed) == 1 && !year_is_negative(signed));
}

/// Whatever a strict reading finds in a field, a lenient reading finds
/// too.
pub proof fn lemma_field_strict_is_lenient(b: Seq<u8>, pos: int, width: int)
    ensures
        field(b, pos, width, true) is Some ==> field(b, pos, width, false) == field(
            b,
            pos,
            width,
            true,
        ),
{
}

/// Strict and lenient reading differ only in what they refuse: a text that
/// is read strictly names the same instant when read leniently.
pub proof fn lemma_strict_is_lenient(b: Seq<u8>)
    ensures
        parsed(b, true) is Some ==> parsed(b, false) == parsed(b, true),
{
    reveal(scan_date);
    reveal(scan_clock);
    reveal(scan_zone);
    let start = year_sign_len(b);
    lemma_field_strict_is_lenient(b, start, 4);
    let month_pos = after_mark(b, start + 4, HYPHEN);
    lemma_field_strict_is_lenient(b, month_pos, 2);
    let day_pos = after_mark(b, month_pos + 2, HYPHEN);
    lemma_field_strict_is_lenient(b, day_pos, 2);
    let hour_pos = day_pos + 3;
    lemma_field_strict_is_lenient(b, hour_pos, 2);
    let minute_pos = after_mark(b, hour_pos + 2, COLON);
    lemma_field_strict_is_lenient(b, minute_pos, 2);
    let second_pos = after_mark(b, minute_pos + 2, COLON);
    lemma_field_strict_is_lenient(b, second_pos, 2);
    if parsed(b, true) is Some {
        let date = scan_date(b, start, true).unwrap();
        if date.end < b.len() {
            let clock = scan_clock(b, date.end + 1, true).unwrap();
            let zone_pos = clock.end;
            if zone_pos < b.len() {
                let hours_pos = if b[zone_pos] == MINUS_SIGN_0 {
                    zone_pos + 3
                } else {
                    zone_pos + 1
                };
                lemma_field_strict_is_lenient(b, hours_pos, 2);
                let minutes_pos = after_mark(b, hours_pos + 2, COLON);
                lemma_field_strict_is_lenient(b, minutes_pos, 2);
            }
        }
    }
}

} // verus!
