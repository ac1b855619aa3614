//! Formatting: a timestamp and an offset, written into the skeleton of a
//! layout.

use vstd::prelude::*;

use crate::ascii::HYPHEN;
use crate::digits::{decimal, lemma_pow10_values, pow10, splice, write_num};
use crate::layout::{FormatString, IsValidFormat, Layout};
use crate::offset::{utc, UtcOffset};
use crate::render::{
    day_at, field_at, fields_of, format_text, fraction_digits_at, hour_at, lemma_fields_at,
    lemma_render_ascii, lemma_render_bytes, minute_at, month_at, render, render_byte, second_at,
    sign_byte, skeleton, truncated_fraction, visible, zone_at, Fields,
};
use crate::timestamp::Timestamp;
use crate::ts_str::{template, TimestampStr};

verus! {

/// Whether `buf` holds the text of `f` before index `upto` and the
/// skeleton of the layout from there on.
#[verifier::opaque]
pub open spec fn filled_to(buf: Seq<u8>, f: Fields, layout: Layout, upto: int) -> bool {
    &&& buf.len() == 36
    &&& forall|i: int|
        0 <= i < layout.len() ==> #[trigger] buf[i] == if i < upto {
            render_byte(f, layout, i)
        } else {
            render_byte(Fields::zero(), layout, i)
        }
}

/// A buffer that holds a layout's skeleton is filled up to nothing.
proof fn lemma_fill_start(buf: Seq<u8>, f: Fields, layout: Layout)
    requires
        layout.valid(),
        buf.len() == 36,
        buf.take(layout.len()) == skeleton(layout),
    ensures
        filled_to(buf, f, layout, 0),
{
    reveal(filled_to);
    lemma_render_bytes(Fields::zero(), layout);
    assert forall|i: int| 0 <= i < layout.len() implies #[trigger] buf[i] == render_byte(
        Fields::zero(),
        layout,
        i,
    ) by {
        assert(buf[i] == buf.take(layout.len())[i]);
    }
}

/// With the sign of the year in place, the buffer is filled up to the year.
proof fn lemma_fill_sign(before: Seq<u8>, after: Seq<u8>, f: Fields, layout: Layout)
    requires
        layout.valid(),
        filled_to(before, f, layout, 0),
        after == if f.negative {
            before.update(0, HYPHEN)
        } else {
            before
        },
    ensures
        filled_to(after, f, layout, 1),
{
    reveal(filled_to);
    assert forall|i: int| 0 <= i < layout.len() implies #[trigger] after[i] == if i < 1 {
        render_byte(f, layout, i)
    } else {
        render_byte(Fields::zero(), layout, i)
    } by {
        assert(before[i] == render_byte(Fields::zero(), layout, i));
    }
}

/// One step of formatting: with a field written where the text has it, the
/// buffer is filled up to the next field.
proof fn lemma_fill(
    before: Seq<u8>,
    after: Seq<u8>,
    f: Fields,
    layout: Layout,
    pos: int,
    patch: Seq<u8>,
    next: int,
)
    requires
        layout.valid(),
        filled_to(before, f, layout, pos),
        field_at(f, layout, pos, patch, next),
        after == splice(before, pos, patch),
    ensures
        filled_to(after, f, layout, next),
{
    reveal(filled_to);
    reveal(field_at);
    assert forall|i: int| 0 <= i < layout.len() implies #[trigger] after[i] == if i < next {
        render_byte(f, layout, i)
    } else {
        render_byte(Fields::zero(), layout, i)
    } by {
        assert(before[i] == if i < pos {
            render_byte(f, layout, i)
        } else {
            render_byte(Fields::zero(), layout, i)
        });
    }
}

/// With the sign of the offset in place, the buffer is filled up to the
/// offset's hours.
proof fn lemma_zone_sign(before: Seq<u8>, after: Seq<u8>, f: Fields, layout: Layout)
    requires
        layout.valid(),
        layout.offset,
        filled_to(before, f, layout, zone_at(layout)),
        field_at(
            f,
            layout,
            zone_at(layout),
            seq![sign_byte(f.offset_negative)],
            zone_at(layout) + 1,
        ),
        after == if f.offset_negative {
            before.update(zone_at(layout), HYPHEN)
        } else {
            before
        },
    ensures
        filled_to(after, f, layout, zone_at(layout) + 1),
{
    let patch = seq![sign_byte(f.offset_negative)];
    assert(after =~= splice(before, zone_at(layout), patch)) by {
        reveal(filled_to);
        assert(before[zone_at(layout)] == render_byte(Fields::zero(), layout, zone_at(layout)));
    }
    lemma_fill(before, after, f, layout, zone_at(layout), patch, zone_at(layout) + 1);
}

/// In a layout without offset, the `Z` of the skeleton ends the text.
proof fn lemma_zone_utc(buf: Seq<u8>, f: Fields, layout: Layout)
    requires
        layout.valid(),
        !layout.offset,
        filled_to(buf, f, layout, zone_at(layout)),
    ensures
        filled_to(buf, f, layout, layout.len()),
{
    reveal(filled_to);
}

/// A buffer filled to the end of the layout holds the text.
proof fn lemma_fill_done(buf: Seq<u8>, f: Fields, layout: Layout)
    requires
        layout.valid(),
        filled_to(buf, f, layout, layout.len()),
    ensures
        buf.take(layout.len()) == render(f, layout),
{
    reveal(filled_to);
    lemma_render_bytes(f, layout);
    let got = buf.take(layout.len());
    let want = render(f, layout);
    assert forall|i: int| 0 <= i < layout.len() implies got[i] == want[i] by {
        assert(want[i] == render_byte(f, layout, i));
        assert(got[i] == buf[i]);
    }
    assert(got =~= want);
}

/// The nanoseconds cut off after `precision` digits: the integer that the
/// first `precision` of the nine digits spell. Truncation, never rounding.
pub fn truncate_nanoseconds(nanosecond: u32, precision: u8) -> (r: u32)
    requires
        nanosecond < 1_000_000_000,
        precision <= 9,
    ensures
        r == truncated_fraction(nanosecond as int, precision as int),
        r < pow10(precision as nat),
{
    let divisor: u32 = match precision {
        0 => 1_000_000_000,
        1 => 100_000_000,
        2 => 10_000_000,
        3 => 1_000_000,
        4 => 100_000,
        5 => 10_000,
        6 => 1_000,
        7 => 100,
        8 => 10,
        _ => 1,
    };
    proof {
        lemma_pow10_values();
        assert(divisor == pow10((9 - precision) as nat));
    }
    nanosecond / divisor
}

/// Formats `ts` with `offset` in `layout`.
///
/// The offset is written as it is given; the time is not shifted by it.
/// A layout without offset ends in `Z` whatever the offset is. The fraction
/// of the second is cut to the layout's digits, not rounded. The result has
/// exactly the length of the layout.
pub fn do_format(ts: Timestamp, offset: UtcOffset, layout: FormatString) -> (r: TimestampStr)
    ensures
        r@ == format_text(ts@, offset@, layout@),
        r@.len() == layout@.len(),
        r.spec_layout() == layout@,
{
    // decompose timestamp
    let (signed_year, month, day) = ts.to_calendar_date();
    let (hour, minute, second, nanosecond) = ts.as_hms_nano();
    let (offset_hours, offset_minutes) = offset.as_hm();
    let len = layout.length();
    let precision = layout.precision();
    let step: usize = if layout.is_punctuated() {
        1
    } else {
        0
    };
    let skeleton_str = template(layout);
    let ghost f = fields_of(ts@, offset@, layout@);
    let ghost l = layout@;
    let mut buf: [u8; 36] = skeleton_str.buf;
    proof {
        use_type_invariant(&skeleton_str);
        lemma_pow10_values();
        lemma_fields_at(f, l);
        lemma_fill_start(buf@, f, l);
    }

    let ghost before = buf@;
    let mut year = signed_year;
    if year < 0 {
        year = -year;  // formatting only accepts unsigned integers
        buf[0] = HYPHEN;
    }
    proof {
        lemma_fill_sign(before, buf@, f, l);
    }

    let mut pos: usize = 1;
    let ghost before = buf@;
    write_num(&mut buf, pos, year as u32, 4);  // YYYY-
    proof {
        lemma_fill(before, buf@, f, l, pos as int, decimal(f.year as nat, 4), month_at(l));
    }
    pos = pos + 4 + step;
    let ghost before = buf@;
    write_num(&mut buf, pos, month as u32, 2);  // MM-
    proof {
        lemma_fill(before, buf@, f, l, pos as int, decimal(f.month as nat, 2), day_at(l));
    }
    pos = pos + 2 + step;
    let ghost before = buf@;
    write_num(&mut buf, pos, day as u32, 2);  // DDT
    proof {
        lemma_fill(before, buf@, f, l, pos as int, decimal(f.day as nat, 2), hour_at(l));
    }
    pos = pos + 2 + 1;
    let ghost before = buf@;
    write_num(&mut buf, pos, hour as u32, 2);  // HH:
    proof {
        lemma_fill(before, buf@, f, l, pos as int, decimal(f.hour as nat, 2), minute_at(l));
    }
    pos = pos + 2 + step;
    let ghost before = buf@;
    write_num(&mut buf, pos, minute as u32, 2);  // mm:
    proof {
        lemma_fill(before, buf@, f, l, pos as int, decimal(f.minute as nat, 2), second_at(l));
    }
    pos = pos + 2 + step;
    let ghost before = buf@;
    write_num(&mut buf, pos, second as u32, 2);  // ss.
    proof {
        lemma_fill(
            before,
            buf@,
            f,
            l,
            pos as int,
            decimal(f.second as nat, 2),
            fraction_digits_at(l),
        );
    }
    pos = pos + 2;
    if precision > 0 {
        pos = pos + 1;  // .
        let ghost before = buf@;
        write_num(&mut buf, pos, truncate_nanoseconds(nanosecond, precision), precision as usize);
        proof {
            lemma_fill(
                before,
                buf@,
                f,
                l,
                pos as int,
                decimal(f.fraction as nat, l.precision as nat),
                zone_at(l),
            );
        }
        pos = pos + precision as usize;
    }
    if layout.has_offset() {
        let ghost before = buf@;
        if offset.is_negative() {
            buf[pos] = HYPHEN;
        }
        proof {
            lemma_zone_sign(before, buf@, f, l);
        }
        pos = pos + 1;  // +-
        let ghost before = buf@;
        write_num(&mut buf, pos, offset_hours as u32, 2);  // HZ:
        proof {
            lemma_fill(
                before,
                buf@,
                f,
                l,
                pos as int,
                decimal(f.offset_hours as nat, 2),
                zone_at(l) + 4,
            );
        }
        pos = pos + 2 + 1;  // :
        let ghost before = buf@;
        write_num(&mut buf, pos, offset_minutes as u32, 2);  // MZ
        proof {
            lemma_fill(
                before,
                buf@,
                f,
                l,
                pos as int,
                decimal(f.offset_minutes as nat, 2),
                zone_at(l) + 6,
            );
        }
    } else {
        proof {
            lemma_zone_utc(buf@, f, l);
        }
    }
    proof {
        lemma_fill_done(buf@, f, l);
        lemma_render_ascii(f, l);
    }
    TimestampStr { buf, len, layout }
}

impl Timestamp {
    /// Formats the timestamp given the provided formatting parameters
    pub fn format_raw(&self, layout: FormatString, offset: UtcOffset) -> (r: TimestampStr)
        ensures
            r@ == format_text(self@, offset@, layout@),
            r@.len() == layout@.len(),
            r.spec_layout() == layout@,
    {
        do_format(*self, offset, layout)
    }

    /// Formats a full timestamp without offset, using the given subsecond
    /// precision level.
    pub fn format_with_precision(&self, precision: u8) -> (r: TimestampStr)
        requires
            precision <= 9,
        ensures
            r.spec_layout() == (Layout {
                punctuated: true,
                offset: false,
                precision: precision as int,
            }),
            r@ == format_text(self@, utc(), r.spec_layout()),
            r@.len() == 21 + r.spec_layout().fraction_len(),
    {
        self.format_raw(FormatString { punctuated: true, offset: false, precision }, UtcOffset::utc())
    }

    /// Format timestamp to ISO8601 with full punctuation, to millisecond
    /// precision.
    pub fn format(&self) -> (r: TimestampStr)
        ensures
            r.spec_layout() == (Layout { punctuated: true, offset: false, precision: 3 }),
            r@ == format_text(self@, utc(), r.spec_layout()),
            r@.len() == 25,
    {
        self.format_raw(crate::formats::full_milliseconds(), UtcOffset::utc())
    }

    /// The timestamp as a string, with full punctuation, to millisecond
    /// precision: the text of `format`.
    pub fn to_string(&self) -> (r: String)
        ensures
            vstd::utf8::encode_utf8(r@) == visible(
                format_text(self@, utc(), Layout { punctuated: true, offset: false, precision: 3 }),
            ),
    {
        self.format().to_string()
    }

    /// Format timestamp to ISO8601 with extended precision to nanoseconds.
    pub fn format_nanoseconds(&self) -> (r: TimestampStr)
        ensures
            r.spec_layout() == (Layout { punctuated: true, offset: false, precision: 9 }),
            r@ == format_text(self@, utc(), r.spec_layout()),
            r@.len() == 31,
    {
        self.format_raw(crate::formats::full_nanoseconds(), UtcOffset::utc())
    }

    /// Format timestamp to ISO8601 with extended precision to microseconds.
    pub fn format_microseconds(&self) -> (r: TimestampStr)
        ensures
            r.spec_layout() == (Layout { punctuated: true, offset: false, precision: 6 }),
            r@ == format_text(self@, utc(), r.spec_layout()),
            r@.len() == 28,
    {
        self.format_raw(crate::formats::full_microseconds(), UtcOffset::utc())
    }

    /// Format timestamp to ISO8601 without most punctuation, to millisecond
    /// precision.
    pub fn format_short(&self) -> (r: TimestampStr)
        ensures
            r.spec_layout() == (Layout { punctuated: false, offset: false, precision: 3 }),
            r@ == format_text(self@, utc(), r.spec_layout()),
            r@.len() == 21,
    {
        self.format_raw(crate::formats::short_milliseconds(), UtcOffset::utc())
    }

    /// Format timestamp to ISO8601 with arbitrary UTC offset. Any offset is
    /// formatted as `+HH:MM`, and no timezone conversions are done. It is
    /// interpreted literally.
    pub fn format_with_offset(&self, offset: UtcOffset) -> (r: TimestampStr)
        ensures
            r.spec_layout() == (Layout { punctuated: true, offset: true, precision: 3 }),
            r@ == format_text(self@, offset@, r.spec_layout()),
            r@.len() == 30,
    {
        self.format_raw(crate::formats::full_milliseconds_offset(), offset)
    }

    /// Formats a full timestamp with timezone offset, and the provided
    /// level of subsecond precision.
    pub fn format_with_offset_and_precision(&self, offset: UtcOffset, precision: u8) -> (r:
        TimestampStr)
        requires
            precision <= 9,
        ensures
            r.spec_layout() == (Layout {
                punctuated: true,
                offset: true,
                precision: precision as int,
            }),
            r@ == format_text(self@, offset@, r.spec_layout()),
            r@.len() == 26 + r.spec_layout().fraction_len(),
    {
        self.format_raw(FormatString { punctuated: true, offset: true, precision }, offset)
    }
}

} // verus!
