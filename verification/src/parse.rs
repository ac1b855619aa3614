//! Parsing: what a text says, and the scanner that reads it.
//!
//! The text is read from left to right and never reread. A year, a month
//! and a day are required; a time of day may follow, and after it a zone.
//! Whatever goes wrong, the answer is the same: nothing.

use vstd::prelude::*;
use vstd::string::StringSliceAdditionalSpecFns;

use crate::ascii::{
    COLON, COMMA, HYPHEN, LOWER_C, LOWER_T, LOWER_U, LOWER_Z, MINUS_SIGN_0, MINUS_SIGN_1,
    MINUS_SIGN_2, PERIOD, PLUS, SPACE, UNDERSCORE, UPPER_C, UPPER_T, UPPER_U, UPPER_Z, ZERO,
};
use crate::calendar::valid_calendar_date;
use crate::digits::{
    all_digits, decode, is_ascii_digit, is_digit, lemma_digit_nibble, lemma_digits_bound,
    lemma_pow10_product, lemma_pow10_step, lemma_pow10_values, nibble_value, parse_2, parse_4,
    pow10,
};
use crate::duration::{Duration, Span};
use crate::time_crate::{instant_minus, instant_plus};
use crate::timestamp::{calendar_date_time, valid_time_of_day, view_of, DateTime, Timestamp};

verus! {

/// Whether U+2212 MINUS SIGN stands at `pos`, in its three bytes of UTF-8.
pub open spec fn has_minus_sign(b: Seq<u8>, pos: int) -> bool {
    &&& 0 <= pos
    &&& pos + 3 <= b.len()
    &&& b[pos] == MINUS_SIGN_0
    &&& b[pos + 1] == MINUS_SIGN_1
    &&& b[pos + 2] == MINUS_SIGN_2
}

/// The number of bytes of the sign before the year: one for `+` or `-`,
/// three for the minus sign, none for a bare year.
pub open spec fn year_sign_len(b: Seq<u8>) -> int {
    if b.len() > 0 && (b[0] == HYPHEN || b[0] == PLUS) {
        1
    } else if has_minus_sign(b, 0) {
        3
    } else {
        0
    }
}

/// Whether the text begins with `-` or the minus sign.
pub open spec fn year_is_negative(b: Seq<u8>) -> bool {
    (b.len() > 0 && b[0] == HYPHEN) || has_minus_sign(b, 0)
}

/// The number in the `width` bytes at `pos`, or nothing if the text ends
/// before the field does or the field does not decode.
pub open spec fn field(b: Seq<u8>, pos: int, width: int, strict: bool) -> Option<int> {
    if 0 <= pos && pos + width <= b.len() {
        match decode(b.subrange(pos, pos + width), strict) {
            Some(v) => Some(v as int),
            None => None,
        }
    } else {
        None
    }
}

/// The position after `mark` if `mark` stands at `pos`, else `pos`.
pub open spec fn after_mark(b: Seq<u8>, pos: int, mark: u8) -> int {
    if 0 <= pos < b.len() && b[pos] == mark {
        pos + 1
    } else {
        pos
    }
}

/// What the scanner read of a date, and where it stopped.
pub struct DateScan {
    /// The year without its sign.
    pub year: int,
    pub month: int,
    pub day: int,
    pub end: int,
}

/// The date at `start`: four digits of year, two of month and two of day,
/// with or without a `-` after year and month.
#[verifier::opaque]
pub open spec fn scan_date(b: Seq<u8>, start: int, strict: bool) -> Option<DateScan> {
    match field(b, start, 4, strict) {
        None => None,
        Some(year) => {
            let month_pos = after_mark(b, start + 4, HYPHEN);
            match field(b, month_pos, 2, strict) {
                None => None,
                Some(month) => {
                    let day_pos = after_mark(b, month_pos + 2, HYPHEN);
                    match field(b, day_pos, 2, strict) {
                        None => None,
                        Some(day) => Some(DateScan { year, month, day, end: day_pos + 2 }),
                    }
                },
            }
        },
    }
}

/// Where the run of digits that begins at `pos` ends.
pub open spec fn digit_run_end(b: Seq<u8>, pos: int) -> int
    decreases b.len() - pos,
{
    if 0 <= pos < b.len() && is_digit(b[pos]) {
        digit_run_end(b, pos + 1)
    } else {
        pos
    }
}

/// The nanoseconds that the digits after the decimal point stand for: the
/// first nine count by their place, any further ones not at all.
pub open spec fn fraction_nanoseconds(digits: Seq<u8>) -> int {
    let kept = if digits.len() < 9 {
        digits.len() as int
    } else {
        9
    };
    (nibble_value(digits.take(kept)) * pow10((9 - kept) as nat)) as int
}

/// What the scanner read of a time of day, and where it stopped.
pub struct ClockScan {
    pub hour: int,
    pub minute: int,
    /// As written: 60 and, leniently, more are possible here.
    pub second: int,
    pub nanosecond: int,
    pub end: int,
}

/// The time of day at `pos`: two digits of hour and two of minute, with or
/// without a `:` after each; then, if a digit follows, two digits of second
/// and, after `.` or `,`, any number of fractional digits. Without seconds
/// the time is the full minute.
#[verifier::opaque]
pub open spec fn scan_clock(b: Seq<u8>, pos: int, strict: bool) -> Option<ClockScan> {
    match field(b, pos, 2, strict) {
        None => None,
        Some(hour) => {
            let minute_pos = after_mark(b, pos + 2, COLON);
            match field(b, minute_pos, 2, strict) {
                None => None,
                Some(minute) => {
                    let second_pos = after_mark(b, minute_pos + 2, COLON);
                    if second_pos < b.len() && is_digit(b[second_pos]) {
                        match field(b, second_pos, 2, strict) {
                            None => None,
                            Some(second) => {
                                let point = second_pos + 2;
                                if point < b.len() && (b[point] == PERIOD || b[point] == COMMA) {
                                    let end = digit_run_end(b, point + 1);
                                    Some(
                                        ClockScan {
                                            hour,
                                            minute,
                                            second,
                                            nanosecond: fraction_nanoseconds(
                                                b.subrange(point + 1, end),
                                            ),
                                            end,
                                        },
                                    )
                                } else {
                                    Some(
                                        ClockScan { hour, minute, second, nanosecond: 0, end: point },
                                    )
                                }
                            },
                        }
                    } else {
                        Some(ClockScan { hour, minute, second: 0, nanosecond: 0, end: second_pos })
                    }
                },
            }
        },
    }
}

/// What the end of a text says about the zone.
pub enum Zone {
    /// `Z`, `UTC`, or nothing at all.
    Utc,
    /// `+HH:MM`
    Ahead { hours: int, minutes: int },
    /// `-HH:MM`, with `-` or the minus sign.
    Behind { hours: int, minutes: int },
}

/// The zone at `pos`, which must be all that is left of the text: nothing;
/// `Z`; `UTC`, in either case of each letter; or a sign, two digits of
/// hours and two of minutes, with or without a `:` between them.
#[verifier::opaque]
pub open spec fn scan_zone(b: Seq<u8>, pos: int, strict: bool) -> Option<Zone> {
    if pos >= b.len() {
        Some(Zone::Utc)
    } else {
        let mark = b[pos];
        if mark == UPPER_Z || mark == LOWER_Z {
            if pos + 1 == b.len() {
                Some(Zone::Utc)
            } else {
                None
            }
        } else if mark == PLUS || mark == HYPHEN || has_minus_sign(b, pos) {
            let hours_pos = if mark == MINUS_SIGN_0 {
                pos + 3
            } else {
                pos + 1
            };
            match field(b, hours_pos, 2, strict) {
                None => None,
                Some(hours) => {
                    let minutes_pos = after_mark(b, hours_pos + 2, COLON);
                    match field(b, minutes_pos, 2, strict) {
                        None => None,
                        Some(minutes) => if minutes_pos + 2 != b.len() {
                            None
                        } else if mark == PLUS {
                            Some(Zone::Ahead { hours, minutes })
                        } else {
                            Some(Zone::Behind { hours, minutes })
                        },
                    }
                },
            }
        } else if mark == UPPER_U || mark == LOWER_U {
            if pos + 3 == b.len() && (b[pos + 1] == UPPER_T || b[pos + 1] == LOWER_T) && (b[pos
                + 2] == UPPER_C || b[pos + 2] == LOWER_C) {
                Some(Zone::Utc)
            } else {
                None
            }
        } else {
            None
        }
    }
}

/// Whether `mark` may stand between the date and the time.
pub open spec fn is_time_mark(mark: u8) -> bool {
    mark == UPPER_T || mark == LOWER_T || mark == SPACE || mark == UNDERSCORE
}

/// The second and nanosecond that a written second stands for. A second
/// above 59 stands for the last nanosecond of the minute, whatever fraction
/// was written with it; strictly read, a second above 60 stands for
/// nothing.
pub open spec fn settle_second(second: int, nanosecond: int, strict: bool) -> Option<(int, int)> {
    if second > 59 {
        if strict && second > 60 {
            None
        } else {
            Some((59, 999_999_999))
        }
    } else {
        Some((second, nanosecond))
    }
}

/// The instant in UTC of a local time with a zone. An offset ahead is
/// added, an offset behind is taken away, one of no size changes nothing;
/// the sum or difference is the date library's, which may find none.
pub open spec fn apply_zone(local: DateTime, zone: Zone) -> Option<DateTime> {
    match zone {
        Zone::Utc => Some(local),
        Zone::Ahead { hours, minutes } => if hours == 0 && minutes == 0 {
            Some(local)
        } else {
            instant_plus(local, Span { seconds: 3600 * hours + 60 * minutes, nanoseconds: 0 })
        },
        Zone::Behind { hours, minutes } => if hours == 0 && minutes == 0 {
            Some(local)
        } else {
            instant_minus(local, Span { seconds: 3600 * hours + 60 * minutes, nanoseconds: 0 })
        },
    }
}

/// What a text says from `start` on, where the sign of the year, if any,
/// has been read before `start`: the instant it names, or nothing.
///
/// A date alone names its midnight. After a date, one of `T`, `t`, a space
/// or `_` must introduce a time. The date and the time of day must exist in
/// the calendar, but for a second of 60, which `settle_second` explains.
pub open spec fn parsed_from(b: Seq<u8>, start: int, negative: bool, strict: bool) -> Option<
    DateTime,
> {
    match scan_date(b, start, strict) {
        None => None,
        Some(date) => {
            let year = if negative {
                -date.year
            } else {
                date.year
            };
            if !valid_calendar_date(year, date.month, date.day) {
                None
            } else if date.end == b.len() {
                Some(calendar_date_time(year, date.month, date.day, 0, 0, 0, 0))
            } else if !is_time_mark(b[date.end]) {
                None
            } else {
                match scan_clock(b, date.end + 1, strict) {
                    None => None,
                    Some(clock) => match settle_second(clock.second, clock.nanosecond, strict) {
                        None => None,
                        Some((second, nanosecond)) => if !valid_time_of_day(
                            clock.hour,
                            clock.minute,
                            second,
                            nanosecond,
                        ) {
                            None
                        } else {
                            match scan_zone(b, clock.end, strict) {
                                None => None,
                                Some(zone) => apply_zone(
                                    calendar_date_time(
                                        year,
                                        date.month,
                                        date.day,
                                        clock.hour,
                                        clock.minute,
                                        second,
                                        nanosecond,
                                    ),
                                    zone,
                                ),
                            }
                        },
                    },
                }
            }
        },
    }
}

/// What a text says: the instant it names, or nothing.
///
/// The year may have a sign before it: `-` or the minus sign U+2212 for a
/// year before the year 0, `+` for any other, as no sign at all. The rest
/// is read as `parsed_from` says.
pub open spec fn parsed(b: Seq<u8>, strict: bool) -> Option<DateTime> {
    parsed_from(b, year_sign_len(b), year_is_negative(b), strict)
}

/// Whether every byte of `s` is a digit.
fn is_all_digits(s: &[u8]) -> (r: bool)
    ensures
        r == all_digits(s@),
{
    let mut i: usize = 0;
    while i < s.len()
        invariant
            i <= s@.len(),
            forall|j: int| 0 <= j < i ==> is_digit(#[trigger] s@[j]),
        decreases s@.len() - i,
    {
        if !is_ascii_digit(s[i]) {
            return false;
        }
        i = i + 1;
    }
    true
}

/// The two-digit field at `pos`.
fn read_2(b: &[u8], pos: usize, strict: bool) -> (r: Option<u8>)
    ensures
        match r {
            Some(v) => field(b@, pos as int, 2, strict) == Some(v as int),
            None => field(b@, pos as int, 2, strict) is None,
        },
        r is Some ==> pos + 2 <= b@.len() <= usize::MAX,
{
    if pos > b.len() || b.len() - pos < 2 {
        return None;
    }
    let chunk = &b[pos..pos + 2];
    if strict && !is_all_digits(chunk) {
        return None;
    }
    Some(parse_2(chunk))
}

/// The four-digit field at `pos`.
fn read_4(b: &[u8], pos: usize, strict: bool) -> (r: Option<u16>)
    ensures
        match r {
            Some(v) => field(b@, pos as int, 4, strict) == Some(v as int),
            None => field(b@, pos as int, 4, strict) is None,
        },
        r is Some ==> pos + 4 <= b@.len() <= usize::MAX,
{
    if pos > b.len() || b.len() - pos < 4 {
        return None;
    }
    let chunk = &b[pos..pos + 4];
    if strict && !is_all_digits(chunk) {
        return None;
    }
    Some(parse_4(chunk))
}

/// Steps over `mark` if it stands at `pos`.
fn skip_mark(b: &[u8], pos: usize, mark: u8) -> (r: usize)
    requires
        pos <= b@.len(),
    ensures
        r == after_mark(b@, pos as int, mark),
        pos <= r <= b@.len(),
{
    if pos < b.len() && b[pos] == mark {
        pos + 1
    } else {
        pos
    }
}

/// Whether the minus sign stands at `pos`.
fn minus_sign_at(b: &[u8], pos: usize) -> (r: bool)
    ensures
        r == has_minus_sign(b@, pos as int),
{
    pos <= b.len() && b.len() - pos >= 3 && b[pos] == MINUS_SIGN_0 && b[pos + 1] == MINUS_SIGN_1
        && b[pos + 2] == MINUS_SIGN_2
}

/// The date at `start`: the year without its sign, the month, the day, and
/// where the date ends.
fn read_date(b: &[u8], start: usize, strict: bool) -> (r: Option<(u16, u8, u8, usize)>)
    ensures
        match r {
            Some(d) => scan_date(b@, start as int, strict) == Some(
                DateScan { year: d.0 as int, month: d.1 as int, day: d.2 as int, end: d.3 as int },
            ) && d.3 <= b@.len(),
            None => scan_date(b@, start as int, strict) is None,
        },
{
    reveal(scan_date);
    let year = match read_4(b, start, strict) {
        Some(year) => year,
        None => {
            return None;
        },
    };
    let month_pos = skip_mark(b, start + 4, HYPHEN);  // YYYY-?
    let month = match read_2(b, month_pos, strict) {
        Some(month) => month,
        None => {
            return None;
        },
    };
    let day_pos = skip_mark(b, month_pos + 2, HYPHEN);  // MM-?
    let day = match read_2(b, day_pos, strict) {
        Some(day) => day,
        None => {
            return None;
        },
    };
    Some((year, month, day, day_pos + 2))  // DD
}

/// The sign before the year: whether it makes the year negative, and how
/// many bytes it takes.
fn read_year_sign(b: &[u8]) -> (r: (bool, usize))
    ensures
        r.0 == year_is_negative(b@),
        r.1 == year_sign_len(b@),
{
    if b.len() > 0 && b[0] == HYPHEN {
        (true, 1)
    } else if b.len() > 0 && b[0] == PLUS {
        (false, 1)
    } else if minus_sign_at(b, 0) {
        (true, 3)
    } else {
        (false, 0)
    }
}

/// A run of digits ends at the first byte that is none, or with the text.
pub proof fn lemma_digit_run(b: Seq<u8>, start: int, end: int)
    requires
        0 <= start <= end <= b.len(),
        forall|i: int| start <= i < end ==> is_digit(#[trigger] b[i]),
        end == b.len() || !is_digit(b[end]),
    ensures
        digit_run_end(b, start) == end,
    decreases end - start,
{
    if start < end {
        lemma_digit_run(b, start + 1, end);
    }
}

/// The fraction of at most nine digits: their value, moved up to nine
/// places. It leaves room for one more unit of its last place.
pub proof fn lemma_fraction_short(run: Seq<u8>)
    requires
        all_digits(run),
        run.len() <= 9,
    ensures
        fraction_nanoseconds(run) == nibble_value(run) * pow10((9 - run.len()) as nat),
        fraction_nanoseconds(run) + pow10((9 - run.len()) as nat) <= 1_000_000_000,
{
    let k = run.len();
    assert(run.take(k as int) =~= run);
    lemma_digits_bound(run);
    lemma_pow10_product(k, (9 - k) as nat);
    lemma_pow10_values();
    let a = nibble_value(run) as int;
    let p = pow10((9 - k) as nat) as int;
    let q = pow10(k) as int;
    assert(a * p + p <= q * p) by (nonlinear_arith)
        requires
            a + 1 <= q,
            p >= 0,
    ;
}

/// The fraction of nine digits or more is that of the first nine.
pub proof fn lemma_fraction_long(run: Seq<u8>)
    requires
        all_digits(run),
        run.len() >= 9,
    ensures
        fraction_nanoseconds(run) == fraction_nanoseconds(run.take(9)),
        fraction_nanoseconds(run) < 1_000_000_000,
{
    let nine = run.take(9);
    assert(nine.take(9) =~= nine);
    assert forall|i: int| 0 <= i < nine.len() implies is_digit(#[trigger] nine[i]) by {
        assert(nine[i] == run[i]);
    }
    lemma_fraction_short(nine);
    lemma_pow10_values();
}

/// One more digit in the fraction: it counts by its place among the first
/// nine, and not at all after them.
pub proof fn lemma_fraction_step(run: Seq<u8>, digit: u8)
    requires
        all_digits(run),
        is_digit(digit),
    ensures
        all_digits(run.push(digit)),
        fraction_nanoseconds(run.push(digit)) == fraction_nanoseconds(run) + if run.len() < 9 {
            (digit - ZERO) * pow10((8 - run.len()) as nat)
        } else {
            0
        },
        fraction_nanoseconds(run.push(digit)) < 1_000_000_000,
{
    let longer = run.push(digit);
    let k = run.len();
    assert forall|i: int| 0 <= i < longer.len() implies is_digit(#[trigger] longer[i]) by {
        if i < k {
            assert(longer[i] == run[i]);
        }
    }
    lemma_pow10_values();
    if k < 9 {
        lemma_fraction_short(run);
        lemma_fraction_short(longer);
        assert(longer.drop_last() =~= run);
        lemma_digit_nibble(digit);
        lemma_pow10_step((8 - k) as nat);
        let a = nibble_value(run) as int;
        let d = (digit - ZERO) as int;
        let p = pow10((8 - k) as nat) as int;
        assert(nibble_value(longer) == 10 * a + d);
        assert(pow10((9 - k) as nat) == 10 * p);
        assert((10 * a + d) * p == a * (10 * p) + d * p) by (nonlinear_arith);
    } else {
        lemma_fraction_long(run);
        lemma_fraction_long(longer);
        assert(longer.take(9) =~= run.take(9));
    }
}

/// The digits after the decimal point, from `pos` to the first byte that is
/// no digit: the nanoseconds they stand for, and where they end.
fn read_fraction(b: &[u8], pos: usize) -> (r: (u32, usize))
    requires
        pos <= b@.len(),
    ensures
        r.1 == digit_run_end(b@, pos as int),
        pos <= r.1 <= b@.len(),
        r.0 == fraction_nanoseconds(b@.subrange(pos as int, r.1 as int)),
        r.0 < 1_000_000_000,
{
    let mut nanosecond: u32 = 0;
    let mut factor: u32 = 100_000_000;  // up to 9 decimal places
    let mut end: usize = pos;
    proof {
        lemma_pow10_values();
        lemma_fraction_short(b@.subrange(pos as int, pos as int));
        assert(nibble_value(b@.subrange(pos as int, pos as int)) == 0);
    }
    // After 9 decimal places the factor is zero: further digits are
    // consumed and change nothing.
    while end < b.len() && is_ascii_digit(b[end])
        invariant
            pos <= end <= b@.len(),
            all_digits(b@.subrange(pos as int, end as int)),
            nanosecond == fraction_nanoseconds(b@.subrange(pos as int, end as int)),
            nanosecond < 1_000_000_000,
            end - pos < 9 ==> factor == pow10((8 - (end - pos)) as nat),
            end - pos >= 9 ==> factor == 0,
            factor <= 100_000_000,
        decreases b@.len() - end,
    {
        let digit: u32 = (b[end] - ZERO) as u32;
        proof {
            let run = b@.subrange(pos as int, end as int);
            lemma_fraction_step(run, b@[end as int]);
            assert(b@.subrange(pos as int, end + 1) =~= run.push(b@[end as int]));
            lemma_pow10_values();
            if end - pos < 8 {
                lemma_pow10_step((7 - (end - pos)) as nat);
            }
            assert(digit * factor <= 9 * factor) by (nonlinear_arith)
                requires
                    digit <= 9,
                    factor >= 0,
            ;
        }
        nanosecond = nanosecond + digit * factor;
        factor = factor / 10;
        end = end + 1;
    }
    proof {
        let run = b@.subrange(pos as int, end as int);
        assert forall|i: int| pos <= i < end implies is_digit(#[trigger] b@[i]) by {
            assert(run[i - pos] == b@[i]);
        }
        lemma_digit_run(b@, pos as int, end as int);
    }
    (nanosecond, end)
}

/// The time of day at `pos`: hour, minute, second as written, nanosecond,
/// and where the time ends.
fn read_clock(b: &[u8], pos: usize, strict: bool) -> (r: Option<(u8, u8, u8, u32, usize)>)
    requires
        pos <= b@.len(),
    ensures
        match r {
            Some(c) => scan_clock(b@, pos as int, strict) == Some(
                ClockScan {
                    hour: c.0 as int,
                    minute: c.1 as int,
                    second: c.2 as int,
                    nanosecond: c.3 as int,
                    end: c.4 as int,
                },
            ) && c.4 <= b@.len() && c.3 < 1_000_000_000,
            None => scan_clock(b@, pos as int, strict) is None,
        },
{
    reveal(scan_clock);
    let hour = match read_2(b, pos, strict) {
        Some(hour) => hour,
        None => {
            return None;
        },
    };
    let minute_pos = skip_mark(b, pos + 2, COLON);  // HH:?
    let minute = match read_2(b, minute_pos, strict) {
        Some(minute) => minute,
        None => {
            return None;
        },
    };
    let second_pos = skip_mark(b, minute_pos + 2, COLON);  // mm:?
    if !(second_pos < b.len() && is_ascii_digit(b[second_pos])) {
        return Some((hour, minute, 0, 0, second_pos));
    }
    let second = match read_2(b, second_pos, strict) {
        Some(second) => second,
        None => {
            return None;
        },
    };
    let point = second_pos + 2;
    if point < b.len() && (b[point] == PERIOD || b[point] == COMMA) {
        let (nanosecond, end) = read_fraction(b, point + 1);
        Some((hour, minute, second, nanosecond, end))
    } else {
        Some((hour, minute, second, 0, point))
    }
}

/// What the scanner read of a zone.
#[derive(Clone, Copy)]
pub(crate) enum ZoneSuffix {
    /// `Z`, `UTC`, or nothing at all.
    Utc,
    /// `+HH:MM`, as hours and minutes.
    Ahead(u8, u8),
    /// `-HH:MM`, as hours and minutes.
    Behind(u8, u8),
}

impl View for ZoneSuffix {
    type V = Zone;

    open(crate) spec fn view(&self) -> Zone {
        match *self {
            ZoneSuffix::Utc => Zone::Utc,
            ZoneSuffix::Ahead(hours, minutes) => Zone::Ahead {
                hours: hours as int,
                minutes: minutes as int,
            },
            ZoneSuffix::Behind(hours, minutes) => Zone::Behind {
                hours: hours as int,
                minutes: minutes as int,
            },
        }
    }
}

/// Setting bit 5 of a letter gives its lower case, and of nothing else
/// that letter.
proof fn lemma_lower_case(c: u8)
    ensures
        (c | 0x20) == LOWER_T <==> c == UPPER_T || c == LOWER_T,
        (c | 0x20) == LOWER_C <==> c == UPPER_C || c == LOWER_C,
{
    assert((c | 0x20) == 116 <==> c == 84 || c == 116) by (bit_vector);
    assert((c | 0x20) == 99 <==> c == 67 || c == 99) by (bit_vector);
}

/// The zone at `pos`, which must be all that is left of the text.
fn read_zone(b: &[u8], pos: usize, strict: bool) -> (r: Option<ZoneSuffix>)
    requires
        pos <= b@.len(),
    ensures
        match r {
            Some(zone) => scan_zone(b@, pos as int, strict) == Some(zone@),
            None => scan_zone(b@, pos as int, strict) is None,
        },
{
    reveal(scan_zone);
    if pos >= b.len() {
        return Some(ZoneSuffix::Utc);
    }
    let mark = b[pos];
    if mark == UPPER_Z || mark == LOWER_Z {
        // Z
        if pos + 1 == b.len() {
            Some(ZoneSuffix::Utc)
        } else {
            None
        }
    } else if mark == PLUS || mark == HYPHEN || mark == MINUS_SIGN_0 {
        // timezone, like +00:00
        let mut hours_pos = pos + 1;
        if mark == MINUS_SIGN_0 {
            // check for UTF8 Unicode MINUS SIGN
            if minus_sign_at(b, pos) {
                hours_pos = pos + 3;
            } else {
                return None;
            }
        }
        let hours = match read_2(b, hours_pos, strict) {
            Some(hours) => hours,
            None => {
                return None;
            },
        };
        let minutes_pos = skip_mark(b, hours_pos + 2, COLON);
        let minutes = match read_2(b, minutes_pos, strict) {
            Some(minutes) => minutes,
            None => {
                return None;
            },
        };
        if minutes_pos + 2 != b.len() {
            return None;
        }
        if mark == PLUS {
            Some(ZoneSuffix::Ahead(hours, minutes))
        } else {
            Some(ZoneSuffix::Behind(hours, minutes))
        }
    } else if mark == UPPER_U || mark == LOWER_U {
        // trailing "UTC" does nothing, same as Z
        if b.len() - pos != 3 {
            return None;
        }
        proof {
            lemma_lower_case(b@[pos + 1]);
            lemma_lower_case(b@[pos + 2]);
        }
        if (b[pos + 1] | 0x20) == LOWER_T && (b[pos + 2] | 0x20) == LOWER_C {
            Some(ZoneSuffix::Utc)
        } else {
            None
        }
    } else {
        None
    }
}

/// Parses a timestamp, strictly or leniently.
///
/// Strictly, every digit position must hold a digit and a second above 60
/// is refused. Leniently, a byte in a digit position counts by its low four
/// bits, whatever it is, and any second above 59 is taken for the last
/// nanosecond of its minute: a malformed text may then be read as some
/// instant or other, where the fields so found exist in the calendar.
pub fn parse_with(b: &[u8], strict: bool) -> (r: Option<Timestamp>)
    ensures
        view_of(r) == parsed(b@, strict),
{
    let (negative, start) = read_year_sign(b);
    let (year, month, day, date_end) = match read_date(b, start, strict) {
        Some(date) => date,
        None => {
            return None;
        },
    };
    let mut year: i32 = year as i32;
    if negative {
        year = -year;
    }
    let date = match Timestamp::from_calendar(year, month, day, 0, 0, 0, 0) {
        Some(date) => date,
        None => {
            return None;
        },
    };
    if date_end == b.len() {
        // date-only
        return Some(date);
    }
    let mark = b[date_end];
    if !(mark == UPPER_T || mark == LOWER_T || mark == SPACE || mark == UNDERSCORE) {
        return None;
    }
    let (hour, minute, written_second, written_nanosecond, clock_end) = match read_clock(
        b,
        date_end + 1,
        strict,
    ) {
        Some(clock) => clock,
        None => {
            return None;
        },
    };
    let mut second = written_second;
    let mut nanosecond = written_nanosecond;
    // if leap seconds, ignore the parsed value and set it to just before 60
    if second > 59 {
        if strict && second > 60 {
            return None;
        }
        second = 59;
        nanosecond = 999_999_999;
    }
    let date_time = match date.replace_time(hour, minute, second, nanosecond) {
        Some(date_time) => date_time,
        None => {
            return None;
        },
    };
    match read_zone(b, clock_end, strict) {
        None => None,
        Some(ZoneSuffix::Utc) => Some(date_time),
        Some(ZoneSuffix::Ahead(hours, minutes)) => {
            if hours == 0 && minutes == 0 {
                return Some(date_time);
            }
            date_time.checked_add(Duration::seconds(3600 * hours as i64 + 60 * minutes as i64))
        },
        Some(ZoneSuffix::Behind(hours, minutes)) => {
            if hours == 0 && minutes == 0 {
                return Some(date_time);
            }
            date_time.checked_sub(Duration::seconds(3600 * hours as i64 + 60 * minutes as i64))
        },
    }
}

/// Parses a timestamp from the bytes of an ISO 8601 text, strictly; an
/// offset found in the text is applied. See `parsed` for what is read.
pub fn parse_iso8601(b: &[u8]) -> (r: Option<Timestamp>)
    ensures
        view_of(r) == parsed(b@, true),
{
    parse_with(b, true)
}

/// As `parse_iso8601`, reading leniently: see `parse_with`.
pub fn parse_iso8601_lenient(b: &[u8]) -> (r: Option<Timestamp>)
    ensures
        view_of(r) == parsed(b@, false),
{
    parse_with(b, false)
}

impl Timestamp {
    /// Parse to UTC timestamp from any ISO8601 string. Offsets are applied
    /// during parsing. Reads strictly: see `parse_with`.
    pub fn parse(ts: &str) -> (r: Option<Timestamp>)
        ensures
            view_of(r) == parsed(ts.spec_bytes(), true),
    {
        parse_iso8601(ts.as_bytes())
    }

    /// As `parse`, reading leniently: see `parse_with`.
    pub fn parse_lenient(ts: &str) -> (r: Option<Timestamp>)
        ensures
            view_of(r) == parsed(ts.spec_bytes(), false),
    {
        parse_iso8601_lenient(ts.as_bytes())
    }
}

} // verus!
