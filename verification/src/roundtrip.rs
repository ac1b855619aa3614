//! What the parser makes of the formatter's texts.

use vstd::prelude::*;

use crate::ascii::{COLON, COMMA, HYPHEN, PERIOD, UPPER_T};
use crate::calendar::{lemma_ordinal_to_calendar, valid_calendar_date};
use crate::digits::{
    decimal, is_digit, lemma_decimal_shape, lemma_decode_decimal, lemma_pow10_product,
    lemma_pow10_values, pow10,
};
use crate::layout::Layout;
use crate::offset::Offset;
use crate::parse::{
    after_mark, apply_zone, digit_run_end, field, fraction_nanoseconds, has_minus_sign,
    lemma_digit_run, lemma_fraction_short, parsed, scan_clock, scan_date, scan_zone,
    settle_second, year_is_negative, year_sign_len, ClockScan, DateScan, Zone,
};
use crate::render::{
    day_at, field_at, fields_of, format_text, fraction_at, fraction_digits_at, hour_at,
    lemma_fields_at, lemma_render_bytes, lemma_render_len, minute_at, month_at, render,
    render_byte, second_at, time_mark_at, visible, zone_at, Fields,
};
use crate::timestamp::{calendar_date_time, valid_time_of_day, DateTime};

verus! {

/// A text as it is handed out: whole, or without its sign byte.
pub open spec fn text_of(f: Fields, layout: Layout, stripped: bool) -> Seq<u8> {
    if stripped {
        render(f, layout).skip(1)
    } else {
        render(f, layout)
    }
}

/// The number of bytes that `text_of` leaves away.
pub open spec fn lead(stripped: bool) -> int {
    if stripped {
        1
    } else {
        0
    }
}

/// The bytes of a text, counted from the sign byte whether it is there or
/// not.
pub proof fn lemma_text_bytes(f: Fields, layout: Layout, stripped: bool)
    requires
        layout.valid(),
    ensures
        text_of(f, layout, stripped).len() == layout.len() - lead(stripped),
        forall|i: int|
            lead(stripped) <= i < layout.len() ==> #[trigger] text_of(f, layout, stripped)[i
                - lead(stripped)] == render_byte(f, layout, i),
{
    lemma_render_bytes(f, layout);
    let t = text_of(f, layout, stripped);
    assert forall|i: int| lead(stripped) <= i < layout.len() implies #[trigger] t[i - lead(
        stripped,
    )] == render_byte(f, layout, i) by {
        assert(render(f, layout)[i] == render_byte(f, layout, i));
    }
}

/// One byte of a text, counted from the sign byte whether it is there or
/// not.
pub proof fn lemma_text_byte(f: Fields, layout: Layout, stripped: bool, i: int)
    requires
        layout.valid(),
        lead(stripped) <= i < layout.len(),
    ensures
        text_of(f, layout, stripped).len() == layout.len() - lead(stripped),
        text_of(f, layout, stripped)[i - lead(stripped)] == render_byte(f, layout, i),
{
    lemma_render_bytes(f, layout);
    assert(render(f, layout)[i] == render_byte(f, layout, i));
}

/// A field of a text reads back as the number that was written.
pub proof fn lemma_field_reads(
    f: Fields,
    layout: Layout,
    stripped: bool,
    pos: int,
    v: nat,
    width: nat,
    next: int,
    strict: bool,
)
    requires
        layout.valid(),
        field_at(f, layout, pos, decimal(v, width), next),
        v < pow10(width),
        lead(stripped) <= pos,
    ensures
        field(text_of(f, layout, stripped), pos - lead(stripped), width as int, strict) == Some(
            v as int,
        ),
        forall|i: int|
            pos <= i < pos + width ==> is_digit(
                #[trigger] text_of(f, layout, stripped)[i - lead(stripped)],
            ),
{
    reveal(field_at);
    lemma_text_bytes(f, layout, stripped);
    lemma_decimal_shape(v, width);
    lemma_decode_decimal(v, width, strict);
    let t = text_of(f, layout, stripped);
    let k = lead(stripped);
    let window = t.subrange(pos - k, pos - k + width);
    assert forall|j: int| 0 <= j < width implies window[j] == decimal(v, width)[j] by {
        assert(t[(pos + j) - k] == render_byte(f, layout, pos + j));
    }
    assert(window =~= decimal(v, width));
    assert forall|i: int| pos <= i < pos + width implies is_digit(#[trigger] t[i - k]) by {
        assert(t[i - k] == render_byte(f, layout, i));
        assert(is_digit(decimal(v, width)[i - pos]));
    }
}

/// The nanoseconds that the fraction of a text stands for.
pub open spec fn written_nanoseconds(f: Fields, layout: Layout) -> int {
    f.fraction * pow10((9 - layout.precision) as nat)
}

/// The zone that a text ends in.
pub open spec fn written_zone(f: Fields, layout: Layout) -> Zone {
    if !layout.offset {
        Zone::Utc
    } else if f.offset_negative {
        Zone::Behind { hours: f.offset_hours, minutes: f.offset_minutes }
    } else {
        Zone::Ahead { hours: f.offset_hours, minutes: f.offset_minutes }
    }
}

/// The scanner finds the date of a text as it was written, and stops at the
/// `T`.
pub proof fn lemma_date_reads(f: Fields, layout: Layout, stripped: bool, strict: bool)
    requires
        layout.valid(),
        f.fits(layout),
        stripped ==> !f.negative,
    ensures
        year_sign_len(text_of(f, layout, stripped)) == 1 - lead(stripped),
        year_is_negative(text_of(f, layout, stripped)) == f.negative,
        scan_date(text_of(f, layout, stripped), 1 - lead(stripped), strict) == Some(
            DateScan {
                year: f.year,
                month: f.month,
                day: f.day,
                end: time_mark_at(layout) - lead(stripped),
            },
        ),
        text_of(f, layout, stripped)[time_mark_at(layout) - lead(stripped)] == UPPER_T,
{
    reveal(scan_date);
    let t = text_of(f, layout, stripped);
    let k = lead(stripped);
    lemma_pow10_values();
    lemma_fields_at(f, layout);
    lemma_field_reads(f, layout, stripped, 1, f.year as nat, 4, month_at(layout), strict);
    lemma_field_reads(
        f,
        layout,
        stripped,
        month_at(layout),
        f.month as nat,
        2,
        day_at(layout),
        strict,
    );
    lemma_field_reads(
        f,
        layout,
        stripped,
        day_at(layout),
        f.day as nat,
        2,
        hour_at(layout),
        strict,
    );
    assert(year_sign_len(t) == 1 - k && year_is_negative(t) == f.negative) by {
        if stripped {
            assert(is_digit(t[1 - k]));
        } else {
            lemma_text_byte(f, layout, stripped, 0);
        }
    }
    assert(after_mark(t, 5 - k, HYPHEN) == month_at(layout) - k) by {
        lemma_text_byte(f, layout, stripped, 5);
        if !layout.punctuated {
            assert(is_digit(t[month_at(layout) - k]));
        }
    }
    assert(after_mark(t, month_at(layout) + 2 - k, HYPHEN) == day_at(layout) - k) by {
        lemma_text_byte(f, layout, stripped, month_at(layout) + 2);
        if !layout.punctuated {
            assert(is_digit(t[day_at(layout) - k]));
        }
    }
    lemma_text_byte(f, layout, stripped, time_mark_at(layout));
}

/// The fraction of a text reads back as the nanoseconds it was cut to.
pub proof fn lemma_fraction_reads(f: Fields, layout: Layout, stripped: bool)
    requires
        layout.valid(),
        f.fits(layout),
        layout.precision > 0,
    ensures
        digit_run_end(text_of(f, layout, stripped), fraction_at(layout) + 1 - lead(stripped))
            == zone_at(layout) - lead(stripped),
        fraction_nanoseconds(
            text_of(f, layout, stripped).subrange(
                fraction_at(layout) + 1 - lead(stripped),
                zone_at(layout) - lead(stripped),
            ),
        ) == written_nanoseconds(f, layout),
{
    let t = text_of(f, layout, stripped);
    let k = lead(stripped);
    let from = fraction_at(layout) + 1;
    let width = layout.precision as nat;
    lemma_fields_at(f, layout);
    lemma_field_reads(f, layout, stripped, from, f.fraction as nat, width, zone_at(layout), false);
    assert(!is_digit(t[zone_at(layout) - k])) by {
        lemma_text_byte(f, layout, stripped, zone_at(layout));
    }
    assert forall|i: int| from - k <= i < zone_at(layout) - k implies is_digit(#[trigger] t[i]) by {
        assert(is_digit(t[(i + k) - k]));
    }
    lemma_digit_run(t, from - k, zone_at(layout) - k);
    let run = t.subrange(from - k, zone_at(layout) - k);
    assert forall|j: int| 0 <= j < run.len() implies is_digit(#[trigger] run[j]) by {
        assert(run[j] == t[(from + j) - k]);
    }
    lemma_fraction_short(run);
}

/// The scanner finds the time of day of a text as it was written, and
/// stops where the zone begins.
pub proof fn lemma_clock_reads(f: Fields, layout: Layout, stripped: bool, strict: bool)
    requires
        layout.valid(),
        f.fits(layout),
    ensures
        scan_clock(text_of(f, layout, stripped), hour_at(layout) - lead(stripped), strict) == Some(
            ClockScan {
                hour: f.hour,
                minute: f.minute,
                second: f.second,
                nanosecond: written_nanoseconds(f, layout),
                end: zone_at(layout) - lead(stripped),
            },
        ),
{
    reveal(scan_clock);
    let t = text_of(f, layout, stripped);
    let k = lead(stripped);
    lemma_pow10_values();
    lemma_fields_at(f, layout);
    lemma_field_reads(
        f,
        layout,
        stripped,
        hour_at(layout),
        f.hour as nat,
        2,
        minute_at(layout),
        strict,
    );
    lemma_field_reads(
        f,
        layout,
        stripped,
        minute_at(layout),
        f.minute as nat,
        2,
        second_at(layout),
        strict,
    );
    lemma_field_reads(
        f,
        layout,
        stripped,
        second_at(layout),
        f.second as nat,
        2,
        fraction_digits_at(layout),
        strict,
    );
    assert(after_mark(t, hour_at(layout) + 2 - k, COLON) == minute_at(layout) - k) by {
        lemma_text_byte(f, layout, stripped, hour_at(layout) + 2);
        if !layout.punctuated {
            assert(is_digit(t[minute_at(layout) - k]));
        }
    }
    assert(after_mark(t, minute_at(layout) + 2 - k, COLON) == second_at(layout) - k) by {
        lemma_text_byte(f, layout, stripped, minute_at(layout) + 2);
        if !layout.punctuated {
            assert(is_digit(t[second_at(layout) - k]));
        }
    }
    assert(is_digit(t[second_at(layout) - k]));
    let point = fraction_at(layout);
    lemma_text_byte(f, layout, stripped, point);
    let second_pos = second_at(layout) - k;
    assert(field(t, second_pos, 2, strict) == Some(f.second));
    assert(second_pos + 2 == point - k);
    assert(point - k < t.len());
    if layout.precision > 0 {
        lemma_fraction_reads(f, layout, stripped);
        assert(t[point - k] == PERIOD);
        assert(scan_clock(t, hour_at(layout) - k, strict) == Some(
            ClockScan {
                hour: f.hour,
                minute: f.minute,
                second: f.second,
                nanosecond: written_nanoseconds(f, layout),
                end: zone_at(layout) - k,
            },
        ));
    } else {
        assert(f.fraction == 0);
        assert(point == zone_at(layout));
        assert(t[point - k] != PERIOD && t[point - k] != COMMA);
        assert(written_nanoseconds(f, layout) == 0) by {
            assert(f.fraction * pow10((9 - layout.precision) as nat) == 0) by (nonlinear_arith)
                requires
                    f.fraction == 0,
            ;
        }
        assert(scan_clock(t, hour_at(layout) - k, strict) == Some(
            ClockScan {
                hour: f.hour,
                minute: f.minute,
                second: f.second,
                nanosecond: written_nanoseconds(f, layout),
                end: zone_at(layout) - k,
            },
        ));
    }
}

/// The scanner finds the zone of a text as it was written.
pub proof fn lemma_zone_reads(f: Fields, layout: Layout, stripped: bool, strict: bool)
    requires
        layout.valid(),
        f.fits(layout),
    ensures
        scan_zone(text_of(f, layout, stripped), zone_at(layout) - lead(stripped), strict) == Some(
            written_zone(f, layout),
        ),
{
    reveal(scan_zone);
    let t = text_of(f, layout, stripped);
    let k = lead(stripped);
    let at = zone_at(layout);
    lemma_pow10_values();
    lemma_fields_at(f, layout);
    lemma_text_byte(f, layout, stripped, at);
    if layout.offset {
        lemma_field_reads(f, layout, stripped, at + 1, f.offset_hours as nat, 2, at + 4, strict);
        lemma_field_reads(f, layout, stripped, at + 4, f.offset_minutes as nat, 2, at + 6, strict);
        lemma_text_byte(f, layout, stripped, at + 3);
        assert(after_mark(t, at + 3 - k, COLON) == at + 4 - k);
        assert(!has_minus_sign(t, at - k));
    }
}

/// What the fields of a text stand for: the instant of the date and time
/// written, moved by the zone written, where the date and the time exist.
pub open spec fn meaning(f: Fields, layout: Layout, strict: bool) -> Option<DateTime> {
    let year = if f.negative {
        -f.year
    } else {
        f.year
    };
    if !valid_calendar_date(year, f.month, f.day) {
        None
    } else {
        match settle_second(f.second, written_nanoseconds(f, layout), strict) {
            None => None,
            Some((second, nanosecond)) => if !valid_time_of_day(
                f.hour,
                f.minute,
                second,
                nanosecond,
            ) {
                None
            } else {
                apply_zone(
                    calendar_date_time(year, f.month, f.day, f.hour, f.minute, second, nanosecond),
                    written_zone(f, layout),
                )
            },
        }
    }
}

/// Parsing reads every text of every layout for what its fields stand for,
/// with or without its sign byte, strictly or leniently.
pub proof fn lemma_text_parses(f: Fields, layout: Layout, stripped: bool, strict: bool)
    requires
        layout.valid(),
        f.fits(layout),
        stripped ==> !f.negative,
    ensures
        parsed(text_of(f, layout, stripped), strict) == meaning(f, layout, strict),
{
    let t = text_of(f, layout, stripped);
    let k = lead(stripped);
    lemma_date_reads(f, layout, stripped, strict);
    lemma_clock_reads(f, layout, stripped, strict);
    lemma_zone_reads(f, layout, stripped, strict);
    lemma_render_len(f, layout);
    assert(t.len() == layout.len() - k);
    assert(time_mark_at(layout) - k < t.len());
    assert(time_mark_at(layout) - k + 1 == hour_at(layout) - k);
}

/// Leap-second clamp: a text whose second is 60 names the last nanosecond
/// of its minute, whatever fraction it is written with, where its date,
/// hour and minute exist and it ends in `Z` or in an offset of no size.
pub proof fn lemma_leap_second_clamped(f: Fields, layout: Layout, stripped: bool, strict: bool)
    requires
        layout.valid(),
        f.fits(layout),
        stripped ==> !f.negative,
        f.second == 60,
        valid_calendar_date(
            if f.negative {
                -f.year
            } else {
                f.year
            },
            f.month,
            f.day,
        ),
        f.hour < 24,
        f.minute < 60,
        !layout.offset || (f.offset_hours == 0 && f.offset_minutes == 0),
    ensures
        parsed(text_of(f, layout, stripped), strict) == Some(
            calendar_date_time(
                if f.negative {
                    -f.year
                } else {
                    f.year
                },
                f.month,
                f.day,
                f.hour,
                f.minute,
                59,
                999_999_999,
            ),
        ),
{
    lemma_text_parses(f, layout, stripped, strict);
}

/// An instant with its nanoseconds cut to `precision` digits.
pub open spec fn truncated(at: DateTime, precision: int) -> DateTime {
    DateTime {
        nanosecond: at.nanosecond - at.nanosecond % (pow10((9 - precision) as nat) as int),
        ..at
    }
}

/// What is read back from the text of an instant: the instant itself, cut
/// to the digits of the layout, where the text ends in `Z` or in an offset
/// of no size; else that instant moved by the offset, forward for `+` and
/// back for `-`, as far as the date library can go.
pub open spec fn read_back(at: DateTime, offset: Offset, layout: Layout) -> Option<DateTime> {
    apply_zone(truncated(at, layout.precision), written_zone(fields_of(at, offset, layout), layout))
}

/// The numbers of an instant fit the fields of every layout.
pub proof fn lemma_fields_fit(at: DateTime, offset: Offset, layout: Layout)
    requires
        at.valid(),
        offset.valid(),
        layout.valid(),
    ensures
        fields_of(at, offset, layout).fits(layout),
        written_nanoseconds(fields_of(at, offset, layout), layout) == truncated(
            at,
            layout.precision,
        ).nanosecond,
        0 <= truncated(at, layout.precision).nanosecond <= at.nanosecond,
        layout.precision == 9 ==> truncated(at, layout.precision) == at,
{
    lemma_pow10_values();
    lemma_ordinal_to_calendar(at.year, at.ordinal);
    let unit = pow10((9 - layout.precision) as nat) as int;
    let width = pow10(layout.precision as nat) as int;
    lemma_pow10_product((9 - layout.precision) as nat, layout.precision as nat);
    assert(unit * width == 1_000_000_000);
    crate::digits::lemma_pow10_step((9 - layout.precision) as nat);
    vstd::arithmetic::div_mod::lemma_fundamental_div_mod(at.nanosecond, unit);
    vstd::arithmetic::div_mod::lemma_multiply_divide_lt(at.nanosecond, unit, width);
    vstd::arithmetic::div_mod::lemma_div_pos_is_pos(at.nanosecond, unit);
    vstd::arithmetic::div_mod::lemma_mod_bound(at.nanosecond, unit);
    assert((at.nanosecond / unit) * unit == unit * (at.nanosecond / unit)) by (nonlinear_arith);
}

/// Round trip: the text of an instant, in any layout, with or without its
/// sign byte, read strictly or leniently, gives the instant back, cut to
/// the digits of the layout and moved by the offset written.
pub proof fn lemma_round_trip(at: DateTime, offset: Offset, layout: Layout, strict: bool)
    requires
        at.valid(),
        offset.valid(),
        layout.valid(),
    ensures
        parsed(format_text(at, offset, layout), strict) == read_back(at, offset, layout),
        parsed(visible(format_text(at, offset, layout)), strict) == read_back(at, offset, layout),
        !layout.offset || offset.is_zero() ==> read_back(at, offset, layout) == Some(
            truncated(at, layout.precision),
        ),
        layout.precision == 9 ==> truncated(at, layout.precision) == at,
        truncated(at, layout.precision).valid(),
{
    let f = fields_of(at, offset, layout);
    lemma_fields_fit(at, offset, layout);
    lemma_ordinal_to_calendar(at.year, at.ordinal);
    lemma_text_parses(f, layout, false, strict);
    lemma_render_bytes(f, layout);
    assert(render(f, layout)[0] == render_byte(f, layout, 0));
    if !f.negative {
        lemma_text_parses(f, layout, true, strict);
    }
    assert(visible(format_text(at, offset, layout)) == text_of(f, layout, !f.negative));
    let cut = truncated(at, layout.precision);
    assert(calendar_date_time(at.year, f.month, f.day, f.hour, f.minute, f.second, cut.nanosecond)
        == cut);
}

} // verus!
