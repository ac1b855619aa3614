//! The text of a timestamp, as a function of its fields and its layout.

use vstd::prelude::*;

use crate::ascii::{all_ascii, COLON, HYPHEN, PERIOD, PLUS, UPPER_T, UPPER_Z, ZERO};
use crate::digits::{
    decimal, is_digit, lemma_decimal_shape, lemma_decimal_zero, lemma_pow10_product,
    lemma_pow10_step, lemma_pow10_values, pow10,
};
use crate::layout::Layout;
use crate::offset::Offset;
use crate::timestamp::DateTime;

verus! {

/// The numbers that fill the digit positions of a layout.
pub struct Fields {
    /// The year is written with `-`.
    pub negative: bool,
    /// The year without its sign.
    pub year: int,
    pub month: int,
    pub day: int,
    pub hour: int,
    pub minute: int,
    pub second: int,
    /// The fraction of the second, as the integer that its digits spell.
    pub fraction: int,
    /// The offset is written with `-`.
    pub offset_negative: bool,
    pub offset_hours: int,
    pub offset_minutes: int,
}

impl Fields {
    /// Whether every number fits the width of its field in `layout`.
    pub open spec fn fits(self, layout: Layout) -> bool {
        &&& 0 <= self.year < 10000
        &&& 0 <= self.month < 100
        &&& 0 <= self.day < 100
        &&& 0 <= self.hour < 100
        &&& 0 <= self.minute < 100
        &&& 0 <= self.second < 100
        &&& 0 <= self.fraction < pow10(layout.precision as nat)
        &&& 0 <= self.offset_hours < 100
        &&& 0 <= self.offset_minutes < 100
    }

    /// All zero, with both signs positive: the fields of a layout's
    /// skeleton.
    pub open spec fn zero() -> Fields {
        Fields {
            negative: false,
            year: 0,
            month: 0,
            day: 0,
            hour: 0,
            minute: 0,
            second: 0,
            fraction: 0,
            offset_negative: false,
            offset_hours: 0,
            offset_minutes: 0,
        }
    }
}

/// The fraction of a second that `precision` digits can show: the
/// nanoseconds cut off after that many digits, never rounded.
pub open spec fn truncated_fraction(nanosecond: int, precision: int) -> int {
    nanosecond / (pow10((9 - precision) as nat) as int)
}

/// The numbers that a timestamp and an offset put into a layout.
pub open spec fn fields_of(at: DateTime, offset: Offset, layout: Layout) -> Fields {
    Fields {
        negative: at.year < 0,
        year: if at.year < 0 {
            -at.year
        } else {
            at.year
        },
        month: at.month(),
        day: at.day(),
        hour: at.hour,
        minute: at.minute,
        second: at.second,
        fraction: truncated_fraction(at.nanosecond, layout.precision),
        offset_negative: offset.negative,
        offset_hours: offset.hours,
        offset_minutes: offset.minutes,
    }
}

/// `'-'` or `'+'`.
pub open spec fn sign_byte(negative: bool) -> u8 {
    if negative {
        HYPHEN
    } else {
        PLUS
    }
}

/// The separator `mark` where the layout is punctuated, nothing where it is
/// not.
pub open spec fn separator(layout: Layout, mark: u8) -> Seq<u8> {
    if layout.punctuated {
        seq![mark]
    } else {
        Seq::empty()
    }
}

/// Sign, year, month and day: `+YYYY-MM-DD` or `+YYYYMMDD`.
pub open spec fn date_text(f: Fields, layout: Layout) -> Seq<u8> {
    seq![sign_byte(f.negative)] + decimal(f.year as nat, 4) + separator(layout, HYPHEN) + decimal(
        f.month as nat,
        2,
    ) + separator(layout, HYPHEN) + decimal(f.day as nat, 2)
}

/// Hour, minute and second: `HH:MM:SS` or `HHMMSS`.
pub open spec fn clock_text(f: Fields, layout: Layout) -> Seq<u8> {
    decimal(f.hour as nat, 2) + separator(layout, COLON) + decimal(f.minute as nat, 2) + separator(
        layout,
        COLON,
    ) + decimal(f.second as nat, 2)
}

/// The point and the fractional digits, or nothing for a layout without.
pub open spec fn fraction_text(f: Fields, layout: Layout) -> Seq<u8> {
    if layout.precision > 0 {
        seq![PERIOD] + decimal(f.fraction as nat, layout.precision as nat)
    } else {
        Seq::empty()
    }
}

/// `Z`, or the offset as a sign and `HH:MM`; the colon is there in every
/// layout.
pub open spec fn zone_text(f: Fields, layout: Layout) -> Seq<u8> {
    if layout.offset {
        seq![sign_byte(f.offset_negative)] + decimal(f.offset_hours as nat, 2) + seq![COLON]
            + decimal(f.offset_minutes as nat, 2)
    } else {
        seq![UPPER_Z]
    }
}

/// The whole text, sign byte first: date, `T`, time, fraction, zone.
pub open spec fn render(f: Fields, layout: Layout) -> Seq<u8> {
    date_text(f, layout) + seq![UPPER_T] + clock_text(f, layout) + fraction_text(f, layout)
        + zone_text(f, layout)
}

/// The text of a layout with every digit zero.
pub open spec fn skeleton(layout: Layout) -> Seq<u8> {
    render(Fields::zero(), layout)
}

/// The text of a timestamp with an offset in a layout, sign byte first.
pub open spec fn format_text(at: DateTime, offset: Offset, layout: Layout) -> Seq<u8> {
    render(fields_of(at, offset, layout), layout)
}

/// What a reader of the text sees: the text without a leading `+`.
pub open spec fn visible(text: Seq<u8>) -> Seq<u8> {
    if text.len() > 0 && text[0] == PLUS {
        text.skip(1)
    } else {
        text
    }
}

/// Where the month begins in a text.
pub open spec fn month_at(layout: Layout) -> int {
    5 + layout.separator_len()
}

/// Where the day begins.
pub open spec fn day_at(layout: Layout) -> int {
    7 + 2 * layout.separator_len()
}

/// Where the `T` stands.
pub open spec fn time_mark_at(layout: Layout) -> int {
    9 + 2 * layout.separator_len()
}

/// Where the hour begins.
pub open spec fn hour_at(layout: Layout) -> int {
    10 + 2 * layout.separator_len()
}

/// Where the minute begins.
pub open spec fn minute_at(layout: Layout) -> int {
    12 + 3 * layout.separator_len()
}

/// Where the second begins.
pub open spec fn second_at(layout: Layout) -> int {
    14 + 4 * layout.separator_len()
}

/// Where the fraction begins, which is where the zone begins in a layout
/// without fraction.
pub open spec fn fraction_at(layout: Layout) -> int {
    16 + 4 * layout.separator_len()
}

/// Where the zone begins.
pub open spec fn zone_at(layout: Layout) -> int {
    fraction_at(layout) + layout.fraction_len()
}

/// Where the digits of the fraction begin: after the point, or at the zone
/// in a layout without fraction.
pub open spec fn fraction_digits_at(layout: Layout) -> int {
    zone_at(layout) - layout.precision
}

/// The byte of the zone at distance `z` from its start.
pub open spec fn zone_byte(f: Fields, layout: Layout, z: int) -> u8 {
    if !layout.offset {
        UPPER_Z
    } else if z == 0 {
        sign_byte(f.offset_negative)
    } else if z < 3 {
        decimal(f.offset_hours as nat, 2)[z - 1]
    } else if z == 3 {
        COLON
    } else {
        decimal(f.offset_minutes as nat, 2)[z - 4]
    }
}

/// The byte of a text at index `i`, found by the part that `i` lies in.
pub open spec fn render_byte(f: Fields, layout: Layout, i: int) -> u8 {
    if i == 0 {
        sign_byte(f.negative)
    } else if i < 5 {
        decimal(f.year as nat, 4)[i - 1]
    } else if i < month_at(layout) {
        HYPHEN
    } else if i < month_at(layout) + 2 {
        decimal(f.month as nat, 2)[i - month_at(layout)]
    } else if i < day_at(layout) {
        HYPHEN
    } else if i < day_at(layout) + 2 {
        decimal(f.day as nat, 2)[i - day_at(layout)]
    } else if i == time_mark_at(layout) {
        UPPER_T
    } else if i < hour_at(layout) + 2 {
        decimal(f.hour as nat, 2)[i - hour_at(layout)]
    } else if i < minute_at(layout) {
        COLON
    } else if i < minute_at(layout) + 2 {
        decimal(f.minute as nat, 2)[i - minute_at(layout)]
    } else if i < second_at(layout) {
        COLON
    } else if i < second_at(layout) + 2 {
        decimal(f.second as nat, 2)[i - second_at(layout)]
    } else if i < zone_at(layout) {
        if i == fraction_at(layout) {
            PERIOD
        } else {
            decimal(f.fraction as nat, layout.precision as nat)[i - fraction_at(layout) - 1]
        }
    } else {
        zone_byte(f, layout, i - zone_at(layout))
    }
}

/// The byte of a layout's skeleton at index `i`: a mark where the layout has
/// one, `0` everywhere else.
pub open spec fn skeleton_byte(layout: Layout, i: int) -> u8 {
    if i == 0 {
        PLUS
    } else if layout.punctuated && (i == 5 || i == 8) {
        HYPHEN
    } else if i == time_mark_at(layout) {
        UPPER_T
    } else if layout.punctuated && (i == 14 || i == 17) {
        COLON
    } else if layout.precision > 0 && i == fraction_at(layout) {
        PERIOD
    } else if i == zone_at(layout) {
        if layout.offset {
            PLUS
        } else {
            UPPER_Z
        }
    } else if layout.offset && i == zone_at(layout) + 3 {
        COLON
    } else {
        ZERO
    }
}

/// Whether the text of `f` holds `patch` at `pos`, and from the end of the
/// patch to `next` what every text of the layout holds there.
#[verifier::opaque]
pub open spec fn field_at(f: Fields, layout: Layout, pos: int, patch: Seq<u8>, next: int) -> bool {
    &&& 0 <= pos
    &&& pos + patch.len() <= next <= layout.len()
    &&& forall|i: int|
        pos <= i < pos + patch.len() ==> #[trigger] render_byte(f, layout, i) == patch[i - pos]
    &&& forall|i: int|
        pos + patch.len() <= i < next ==> #[trigger] render_byte(f, layout, i) == render_byte(
            Fields::zero(),
            layout,
            i,
        )
}

/// The lengths of the four parts of a text.
pub proof fn lemma_part_lens(f: Fields, layout: Layout)
    requires
        layout.valid(),
    ensures
        date_text(f, layout).len() == 9 + 2 * layout.separator_len(),
        clock_text(f, layout).len() == 6 + 2 * layout.separator_len(),
        fraction_text(f, layout).len() == layout.fraction_len(),
        zone_text(f, layout).len() == layout.zone_len(),
{
    lemma_decimal_shape(f.year as nat, 4);
    lemma_decimal_shape(f.month as nat, 2);
    lemma_decimal_shape(f.day as nat, 2);
    lemma_decimal_shape(f.hour as nat, 2);
    lemma_decimal_shape(f.minute as nat, 2);
    lemma_decimal_shape(f.second as nat, 2);
    lemma_decimal_shape(f.fraction as nat, layout.precision as nat);
    lemma_decimal_shape(f.offset_hours as nat, 2);
    lemma_decimal_shape(f.offset_minutes as nat, 2);
}

/// Length invariant: whatever the fields, a text has exactly the length of
/// its layout.
pub proof fn lemma_render_len(f: Fields, layout: Layout)
    requires
        layout.valid(),
    ensures
        render(f, layout).len() == layout.len(),
        17 <= layout.len() <= 36,
{
    lemma_part_lens(f, layout);
}

/// Every byte of a text is the byte of its part.
pub proof fn lemma_render_bytes(f: Fields, layout: Layout)
    requires
        layout.valid(),
    ensures
        render(f, layout).len() == layout.len(),
        forall|i: int|
            0 <= i < layout.len() ==> #[trigger] render(f, layout)[i] == render_byte(f, layout, i),
{
    lemma_part_lens(f, layout);
    lemma_decimal_shape(f.year as nat, 4);
    lemma_decimal_shape(f.month as nat, 2);
    lemma_decimal_shape(f.day as nat, 2);
    lemma_decimal_shape(f.hour as nat, 2);
    lemma_decimal_shape(f.minute as nat, 2);
    lemma_decimal_shape(f.second as nat, 2);
    lemma_decimal_shape(f.fraction as nat, layout.precision as nat);
    lemma_decimal_shape(f.offset_hours as nat, 2);
    lemma_decimal_shape(f.offset_minutes as nat, 2);
    let date = date_text(f, layout);
    let clock = clock_text(f, layout);
    let fraction = fraction_text(f, layout);
    let zone = zone_text(f, layout);
    let s = render(f, layout);
    assert forall|i: int| 0 <= i < layout.len() implies #[trigger] s[i] == render_byte(
        f,
        layout,
        i,
    ) by {
        if i < date.len() {
            assert(s[i] == date[i]);
        } else if i == date.len() {
        } else if i < date.len() + 1 + clock.len() {
            assert(s[i] == clock[i - date.len() - 1]);
        } else if i < date.len() + 1 + clock.len() + fraction.len() {
            assert(s[i] == fraction[i - date.len() - 1 - clock.len()]);
        } else {
            assert(s[i] == zone[i - date.len() - 1 - clock.len() - fraction.len()]);
        }
    }
}

/// Where each field of a text lies, and what follows it up to the next.
pub proof fn lemma_fields_at(f: Fields, layout: Layout)
    requires
        layout.valid(),
    ensures
        field_at(f, layout, 1, decimal(f.year as nat, 4), month_at(layout)),
        field_at(f, layout, month_at(layout), decimal(f.month as nat, 2), day_at(layout)),
        field_at(f, layout, day_at(layout), decimal(f.day as nat, 2), hour_at(layout)),
        field_at(f, layout, hour_at(layout), decimal(f.hour as nat, 2), minute_at(layout)),
        field_at(f, layout, minute_at(layout), decimal(f.minute as nat, 2), second_at(layout)),
        field_at(
            f,
            layout,
            second_at(layout),
            decimal(f.second as nat, 2),
            fraction_digits_at(layout),
        ),
        layout.precision > 0 ==> field_at(
            f,
            layout,
            fraction_digits_at(layout),
            decimal(f.fraction as nat, layout.precision as nat),
            zone_at(layout),
        ),
        layout.offset ==> field_at(
            f,
            layout,
            zone_at(layout),
            seq![sign_byte(f.offset_negative)],
            zone_at(layout) + 1,
        ),
        layout.offset ==> field_at(
            f,
            layout,
            zone_at(layout) + 1,
            decimal(f.offset_hours as nat, 2),
            zone_at(layout) + 4,
        ),
        layout.offset ==> field_at(
            f,
            layout,
            zone_at(layout) + 4,
            decimal(f.offset_minutes as nat, 2),
            zone_at(layout) + 6,
        ),
{
    reveal(field_at);
    lemma_decimal_shape(f.year as nat, 4);
    lemma_decimal_shape(f.month as nat, 2);
    lemma_decimal_shape(f.day as nat, 2);
    lemma_decimal_shape(f.hour as nat, 2);
    lemma_decimal_shape(f.minute as nat, 2);
    lemma_decimal_shape(f.second as nat, 2);
    lemma_decimal_shape(f.fraction as nat, layout.precision as nat);
    lemma_decimal_shape(f.offset_hours as nat, 2);
    lemma_decimal_shape(f.offset_minutes as nat, 2);
}

/// A skeleton holds its marks, and `0` in every digit position.
pub proof fn lemma_skeleton_bytes(layout: Layout)
    requires
        layout.valid(),
    ensures
        skeleton(layout).len() == layout.len(),
        forall|i: int|
            0 <= i < layout.len() ==> #[trigger] skeleton(layout)[i] == skeleton_byte(layout, i),
{
    lemma_render_bytes(Fields::zero(), layout);
    lemma_decimal_zero(4);
    lemma_decimal_zero(2);
    lemma_decimal_zero(layout.precision as nat);
    assert forall|i: int| 0 <= i < layout.len() implies #[trigger] skeleton(layout)[i]
        == skeleton_byte(layout, i) by {
        assert(skeleton(layout)[i] == render_byte(Fields::zero(), layout, i));
    }
}

/// A text is ASCII, whatever its fields.
pub proof fn lemma_render_ascii(f: Fields, layout: Layout)
    requires
        layout.valid(),
    ensures
        all_ascii(render(f, layout)),
        render(f, layout)[0] == PLUS || render(f, layout)[0] == HYPHEN,
{
    lemma_render_bytes(f, layout);
    lemma_decimal_shape(f.year as nat, 4);
    lemma_decimal_shape(f.month as nat, 2);
    lemma_decimal_shape(f.day as nat, 2);
    lemma_decimal_shape(f.hour as nat, 2);
    lemma_decimal_shape(f.minute as nat, 2);
    lemma_decimal_shape(f.second as nat, 2);
    lemma_decimal_shape(f.fraction as nat, layout.precision as nat);
    lemma_decimal_shape(f.offset_hours as nat, 2);
    lemma_decimal_shape(f.offset_minutes as nat, 2);
    let s = render(f, layout);
    assert forall|i: int| 0 <= i < s.len() implies #[trigger] s[i] < 128 by {
        assert(s[i] == render_byte(f, layout, i));
    }
}

/// Sign handling in formatting: the text of a year before 0 is shown with
/// its `-`; the text of any other year is shown without its sign byte and
/// begins with a digit.
pub proof fn lemma_sign_shown(at: DateTime, offset: Offset, layout: Layout)
    requires
        layout.valid(),
    ensures
        at.year < 0 ==> visible(format_text(at, offset, layout)) == format_text(at, offset, layout)
            && format_text(at, offset, layout)[0] == HYPHEN,
        at.year >= 0 ==> visible(format_text(at, offset, layout)) == format_text(
            at,
            offset,
            layout,
        ).skip(1) && format_text(at, offset, layout)[0] == PLUS && is_digit(
            visible(format_text(at, offset, layout))[0],
        ),
        visible(format_text(at, offset, layout)).len() == if at.year < 0 {
            layout.len()
        } else {
            layout.len() - 1
        },
{
    let f = fields_of(at, offset, layout);
    let text = format_text(at, offset, layout);
    lemma_render_bytes(f, layout);
    lemma_decimal_shape(f.year as nat, 4);
    assert(text[0] == render_byte(f, layout, 0));
    assert(text[1] == render_byte(f, layout, 1));
    assert(is_digit(decimal(f.year as nat, 4)[0]));
}

/// Truncation, not rounding: the fraction shown is the largest number of
/// units of the last digit that the nanoseconds hold, so it never reaches
/// the next second.
pub proof fn lemma_truncation(nanosecond: int, precision: int)
    requires
        0 <= nanosecond < 1_000_000_000,
        0 <= precision <= 9,
    ensures
        0 <= truncated_fraction(nanosecond, precision) < pow10(precision as nat),
        truncated_fraction(nanosecond, precision) * pow10((9 - precision) as nat) <= nanosecond,
        nanosecond < (truncated_fraction(nanosecond, precision) + 1) * pow10(
            (9 - precision) as nat,
        ),
{
    let unit = pow10((9 - precision) as nat) as int;
    let width = pow10(precision as nat) as int;
    let shown = truncated_fraction(nanosecond, precision);
    lemma_pow10_values();
    lemma_pow10_product((9 - precision) as nat, precision as nat);
    lemma_pow10_step((9 - precision) as nat);
    vstd::arithmetic::div_mod::lemma_fundamental_div_mod(nanosecond, unit);
    vstd::arithmetic::div_mod::lemma_multiply_divide_lt(nanosecond, unit, width);
    vstd::arithmetic::div_mod::lemma_div_pos_is_pos(nanosecond, unit);
    vstd::arithmetic::div_mod::lemma_mod_bound(nanosecond, unit);
    assert(shown * unit == unit * shown) by (nonlinear_arith);
    assert((shown + 1) * unit == shown * unit + unit) by (nonlinear_arith);
}

} // verus!
