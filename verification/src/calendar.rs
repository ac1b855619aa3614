//! Proleptic Gregorian calendar: leap years, and the step from a day of the
//! year to a month and a day of the month.

use vstd::prelude::*;

verus! {

/// The earliest year a timestamp can hold.
pub const MIN_YEAR: i32 = -9999;

/// The latest year a timestamp can hold.
pub const MAX_YEAR: i32 = 9999;

/// The Gregorian leap-year rule: every fourth year, but of the years that
/// end a century only every fourth.
pub open spec fn is_gregorian_leap(year: int) -> bool {
    year % 4 == 0 && (year % 100 != 0 || year % 400 == 0)
}

/// The number of days in `year`.
pub open spec fn days_in_year(year: int) -> int {
    if is_gregorian_leap(year) {
        366
    } else {
        365
    }
}

/// The number of days of `year` that lie before the first of `month`.
/// For month 13 this is the length of the year.
pub open spec fn days_before_month(year: int, month: int) -> int {
    let common: int = if month <= 1 {
        0
    } else if month == 2 {
        31
    } else if month == 3 {
        59
    } else if month == 4 {
        90
    } else if month == 5 {
        120
    } else if month == 6 {
        151
    } else if month == 7 {
        181
    } else if month == 8 {
        212
    } else if month == 9 {
        243
    } else if month == 10 {
        273
    } else if month == 11 {
        304
    } else if month == 12 {
        334
    } else {
        365
    };
    if month > 2 && is_gregorian_leap(year) {
        common + 1
    } else {
        common
    }
}

/// The number of days in `month` of `year`.
pub open spec fn days_in_month(year: int, month: int) -> int {
    days_before_month(year, month + 1) - days_before_month(year, month)
}

/// Whether `(year, ordinal)` names a day: the year is representable and the
/// ordinal is one of the year's days, counted from 1.
pub open spec fn valid_ordinal_date(year: int, ordinal: int) -> bool {
    MIN_YEAR <= year <= MAX_YEAR && 1 <= ordinal <= days_in_year(year)
}

/// Whether `(year, month, day)` names a day of the calendar.
pub open spec fn valid_calendar_date(year: int, month: int, day: int) -> bool {
    MIN_YEAR <= year <= MAX_YEAR && 1 <= month <= 12 && 1 <= day <= days_in_month(year, month)
}

/// The day of the year of a calendar date.
pub open spec fn ordinal_of(year: int, month: int, day: int) -> int {
    days_before_month(year, month) + day
}

/// The month that the `ordinal`-th day of `year` falls in: the last month
/// that begins before that day.
pub open spec fn month_of(year: int, ordinal: int) -> int {
    if ordinal > days_before_month(year, 12) {
        12
    } else if ordinal > days_before_month(year, 11) {
        11
    } else if ordinal > days_before_month(year, 10) {
        10
    } else if ordinal > days_before_month(year, 9) {
        9
    } else if ordinal > days_before_month(year, 8) {
        8
    } else if ordinal > days_before_month(year, 7) {
        7
    } else if ordinal > days_before_month(year, 6) {
        6
    } else if ordinal > days_before_month(year, 5) {
        5
    } else if ordinal > days_before_month(year, 4) {
        4
    } else if ordinal > days_before_month(year, 3) {
        3
    } else if ordinal > days_before_month(year, 2) {
        2
    } else {
        1
    }
}

/// The day of the month of the `ordinal`-th day of `year`.
pub open spec fn day_of(year: int, ordinal: int) -> int {
    ordinal - days_before_month(year, month_of(year, ordinal))
}

/// A day of the year is a day of the calendar: its month and day are valid
/// and lead back to the same ordinal.
pub proof fn lemma_ordinal_to_calendar(year: int, ordinal: int)
    requires
        1 <= ordinal <= days_in_year(year),
    ensures
        1 <= month_of(year, ordinal) <= 12,
        1 <= day_of(year, ordinal) <= days_in_month(year, month_of(year, ordinal)),
        day_of(year, ordinal) <= 31,
        ordinal_of(year, month_of(year, ordinal), day_of(year, ordinal)) == ordinal,
{
}

/// A day of the calendar is a day of the year, and decomposing its ordinal
/// gives the month and day back.
pub proof fn lemma_calendar_to_ordinal(year: int, month: int, day: int)
    requires
        1 <= month <= 12,
        1 <= day <= days_in_month(year, month),
    ensures
        1 <= ordinal_of(year, month, day) <= days_in_year(year),
        month_of(year, ordinal_of(year, month, day)) == month,
        day_of(year, ordinal_of(year, month, day)) == day,
{
}

/// Whether `year` is a leap year, by the test: divisible by 4, and not
/// by 25 unless by 16. It needs no division by 100 or 400, and no branch:
/// the three remainders are taken whatever the first one is.
pub fn is_leap_year(year: i32) -> (r: bool)
    ensures
        r == is_gregorian_leap(year as int),
{
    let by_4 = year % 4 == 0;
    assert(by_4 == (year as int % 4 == 0));
    let by_25 = year % 25 == 0;
    assert(by_25 == (year as int % 25 == 0));
    let by_16 = year % 16 == 0;
    assert(by_16 == (year as int % 16 == 0));
    proof {
        lemma_leap_identity(year as int);
    }
    by_4 && (!by_25 || by_16)
}

/// The divisibility test of `is_leap_year` is the Gregorian rule, for every
/// year.
pub proof fn lemma_leap_identity(year: int)
    ensures
        (year % 4 == 0 && (year % 25 != 0 || year % 16 == 0)) == is_gregorian_leap(year),
{
}

/// The value that pads the unused lanes of a threshold vector: no day of
/// the year reaches it.
pub const LANE_MAX: u16 = 32767;

/// The days before each month of a common year, in sixteen lanes.
pub const COMMON_THRESHOLDS: [u16; 16] = [
    0, 31, 59, 90, 120, 151, 181, 212, 243, 273, 304, 334, LANE_MAX, LANE_MAX, LANE_MAX, LANE_MAX,
];

/// The days before each month of a leap year, in sixteen lanes.
pub const LEAP_THRESHOLDS: [u16; 16] = [
    0, 31, 60, 91, 121, 152, 182, 213, 244, 274, 305, 335, LANE_MAX, LANE_MAX, LANE_MAX, LANE_MAX,
];

/// The low eight lanes of `COMMON_THRESHOLDS`.
pub const COMMON_LOW: [u16; 8] = [0, 31, 59, 90, 120, 151, 181, 212];

/// The high eight lanes of `COMMON_THRESHOLDS`.
pub const COMMON_HIGH: [u16; 8] = [243, 273, 304, 334, LANE_MAX, LANE_MAX, LANE_MAX, LANE_MAX];

/// The low eight lanes of `LEAP_THRESHOLDS`.
pub const LEAP_LOW: [u16; 8] = [0, 31, 60, 91, 121, 152, 182, 213];

/// The high eight lanes of `LEAP_THRESHOLDS`.
pub const LEAP_HIGH: [u16; 8] = [244, 274, 305, 335, LANE_MAX, LANE_MAX, LANE_MAX, LANE_MAX];

/// Lane `lane` of the threshold vector of `year`: the days before month
/// `lane + 1`, and `LANE_MAX` in the four lanes past December.
pub open spec fn threshold(year: int, lane: int) -> int {
    if lane < 12 {
        days_before_month(year, lane + 1)
    } else {
        LANE_MAX as int
    }
}

/// Whether bit `bit` of `mask` is set.
pub open spec fn bit_set(mask: u32, bit: u32) -> bool {
    (mask >> bit) & 1u32 == 1u32
}

/// Whether `mask` marks exactly the lanes of `lanes` that are zero, with
/// two bits to a lane, lane `j` at bits `2 * j + shift` and the next.
pub open spec fn marks_zero_lanes(mask: u32, lanes: Seq<u16>, shift: int) -> bool {
    forall|bit: u32|
        0 <= bit < 32 ==> (#[trigger] bit_set(mask, bit) <==> {
            &&& shift <= bit < shift + 2 * lanes.len()
            &&& lanes[(bit - shift) / 2] == 0
        })
}

/// Lane by lane, `ordinal` less `thresholds`, stopping at zero: a lane is
/// zero exactly where the ordinal has not passed the threshold.
pub fn saturating_lanes<const N: usize>(ordinal: u16, thresholds: &[u16; N]) -> (lanes: [u16; N])
    ensures
        forall|j: int|
            0 <= j < N ==> #[trigger] lanes@[j] == if ordinal > thresholds@[j] {
                ordinal - thresholds@[j]
            } else {
                0
            },
{
    let mut lanes: [u16; N] = [0; N];
    let mut j: usize = 0;
    while j < N
        invariant
            j <= N,
            forall|k: int|
                0 <= k < j ==> #[trigger] lanes@[k] == if ordinal > thresholds@[k] {
                    ordinal - thresholds@[k]
                } else {
                    0
                },
        decreases N - j,
    {
        lanes[j] = ordinal.saturating_sub(thresholds[j]);
        j = j + 1;
    }
    lanes
}

/// A mask with two bits set for every lane that is zero and none for the
/// others, lane 0 lowest.
pub fn zero_lane_mask<const N: usize>(lanes: &[u16; N]) -> (mask: u32)
    requires
        N <= 16,
    ensures
        marks_zero_lanes(mask, lanes@, 0),
{
    let mut mask: u32 = 0;
    let mut j: usize = 0;
    proof {
        lemma_no_bits();
    }
    while j < N
        invariant
            j <= N <= 16,
            marks_zero_lanes(mask, lanes@.take(j as int), 0),
        decreases N - j,
    {
        let ghost before = mask;
        if lanes[j] == 0 {
            mask = mask | (3u32 << (2 * j as u32));
        }
        proof {
            let now = lanes@.take(j + 1);
            let was = lanes@.take(j as int);
            assert forall|bit: u32| 0 <= bit < 32 implies (#[trigger] bit_set(mask, bit) <==> {
                &&& 0 <= bit < 2 * now.len()
                &&& now[(bit - 0) / 2] == 0
            }) by {
                lemma_pair_bits(before, j as u32, bit);
                assert(bit_set(before, bit) <==> {
                    &&& 0 <= bit < 2 * was.len()
                    &&& was[(bit - 0) / 2] == 0
                });
            }
        }
        j = j + 1;
    }
    assert(lanes@.take(N as int) =~= lanes@);
    mask
}

/// The empty mask has no bit set.
proof fn lemma_no_bits()
    ensures
        forall|bit: u32| 0 <= bit < 32 ==> !#[trigger] bit_set(0u32, bit),
{
    assert forall|bit: u32| 0 <= bit < 32 implies !#[trigger] bit_set(0u32, bit) by {
        assert((0u32 >> bit) & 1u32 == 0u32) by (bit_vector)
            requires
                bit < 32,
        ;
    }
}

/// Setting the pair of bits of lane `lane` sets those two and leaves every
/// other bit as it was.
proof fn lemma_pair_bits(mask: u32, lane: u32, bit: u32)
    requires
        lane < 16,
        bit < 32,
    ensures
        bit_set(mask | (3u32 << (2 * lane) as u32), bit) == (bit == 2 * lane || bit == 2 * lane + 1
            || bit_set(mask, bit)),
{
    let shift: u32 = (2 * lane) as u32;
    let next: u32 = (shift + 1) as u32;
    assert(((mask | (3u32 << shift)) >> bit) & 1u32 == 1u32 <==> (bit == shift || bit == next || (
    mask >> bit) & 1u32 == 1u32)) by (bit_vector)
        requires
            shift < 31,
            next == shift + 1,
            bit < 32,
    ;
}

/// The saturated difference of one lane.
pub open spec fn lane_value(year: int, ordinal: int, lane: int) -> int {
    if ordinal > threshold(year, lane) {
        ordinal - threshold(year, lane)
    } else {
        0
    }
}

/// Calendar decomposition agreement: the first lane that the ordinal
/// has not passed is the lane of its month, every lane before it has been
/// passed, and the lane before it holds the day of the month.
pub proof fn lemma_probe_is_calendar(year: int, ordinal: int)
    requires
        1 <= ordinal <= days_in_year(year),
    ensures
        1 <= month_of(year, ordinal) <= 12,
        lane_value(year, ordinal, month_of(year, ordinal)) == 0,
        forall|lane: int|
            0 <= lane < month_of(year, ordinal) ==> #[trigger] lane_value(year, ordinal, lane) > 0,
        lane_value(year, ordinal, month_of(year, ordinal) - 1) == day_of(year, ordinal),
{
}

/// The lowest set bit of a mask of zero lanes names the month, and the lane
/// before it holds the day: the first threshold that the ordinal has not
/// passed is that of the month after its own.
pub proof fn lemma_first_zero_lane(mask: u32, lanes: Seq<u16>, year: int, ordinal: int)
    requires
        1 <= ordinal <= days_in_year(year),
        lanes.len() == 16,
        marks_zero_lanes(mask, lanes, 0),
        forall|j: int| 0 <= j < 16 ==> #[trigger] lanes[j] == lane_value(year, ordinal, j),
    ensures
        mask.trailing_zeros() / 2 == month_of(year, ordinal),
        lanes[month_of(year, ordinal) - 1] == day_of(year, ordinal),
{
    let month = month_of(year, ordinal);
    let zeros = mask.trailing_zeros();
    vstd::std_specs::bits::axiom_u32_trailing_zeros(mask);
    lemma_probe_is_calendar(year, ordinal);
    assert(lanes[month] == lane_value(year, ordinal, month));
    let own: u32 = (2 * month) as u32;
    assert(bit_set(mask, own));
    assert(mask != 0) by {
        if mask == 0 {
            lemma_no_bits();
        }
    }
    assert(zeros <= own) by {
        if own < zeros {
            assert((mask >> own) & 1u32 == 0u32);
        }
    }
    assert(bit_set(mask, zeros));
    let lane = zeros as int / 2;
    assert(lanes[lane] == lane_value(year, ordinal, lane));
    assert(lanes[month - 1] == lane_value(year, ordinal, month - 1));
}

/// The mask of sixteen lanes held as two vectors of eight: the high mask
/// moved up sixteen bits, joined to the low one.
pub proof fn lemma_join_masks(low: u32, high: u32, low_lanes: Seq<u16>, high_lanes: Seq<u16>)
    requires
        low_lanes.len() == 8,
        high_lanes.len() == 8,
        marks_zero_lanes(low, low_lanes, 0),
        marks_zero_lanes(high, high_lanes, 0),
    ensures
        marks_zero_lanes((high << 16) | low, low_lanes + high_lanes, 0),
{
    let mask = (high << 16) | low;
    let all = low_lanes + high_lanes;
    assert forall|bit: u32| 0 <= bit < 32 implies (#[trigger] bit_set(mask, bit) <==> {
        &&& 0 <= bit < 2 * all.len()
        &&& all[(bit - 0) / 2] == 0
    }) by {
        let down: u32 = if bit >= 16 {
            (bit - 16) as u32
        } else {
            0
        };
        assert((((high << 16) | low) >> bit) & 1u32 == 1u32 <==> ((low >> bit) & 1u32 == 1u32 || (
        bit >= 16 && (high >> down) & 1u32 == 1u32))) by (bit_vector)
            requires
                bit < 32,
                bit >= 16 ==> down == bit - 16,
        ;
        assert(bit_set(low, bit) <==> {
            &&& 0 <= bit < 2 * low_lanes.len()
            &&& low_lanes[(bit - 0) / 2] == 0
        });
        assert(bit_set(high, down) <==> {
            &&& 0 <= down < 2 * high_lanes.len()
            &&& high_lanes[(down - 0) / 2] == 0
        });
    }
}

/// The month and day of the `ordinal`-th day of `year`, found without a
/// branch on the ordinal: one vector of sixteen thresholds is subtracted
/// from it lane by lane, and the first lane left at zero gives the month.
pub fn to_calendar_date_x16(year: i32, ordinal: u16) -> (r: (i32, u8, u8))
    requires
        1 <= ordinal <= days_in_year(year as int),
    ensures
        r.0 == year,
        r.1 == month_of(year as int, ordinal as int),
        r.2 == day_of(year as int, ordinal as int),
{
    let lanes = if is_leap_year(year) {
        saturating_lanes(ordinal, &LEAP_THRESHOLDS)
    } else {
        saturating_lanes(ordinal, &COMMON_THRESHOLDS)
    };
    let mask = zero_lane_mask(&lanes);
    proof {
        assert forall|j: int| 0 <= j < 16 implies #[trigger] lanes@[j] == lane_value(
            year as int,
            ordinal as int,
            j,
        ) by {
            assert(LEAP_THRESHOLDS@[j] == threshold(2000, j));
            assert(COMMON_THRESHOLDS@[j] == threshold(2001, j));
        }
        lemma_first_zero_lane(mask, lanes@, year as int, ordinal as int);
        lemma_ordinal_to_calendar(year as int, ordinal as int);
    }
    let month = mask.trailing_zeros() / 2;
    let day = lanes[month as usize - 1];
    (year, month as u8, day as u8)
}

/// As `to_calendar_date_x16`, with the sixteen lanes held as two vectors of
/// eight whose masks are joined before the first zero lane is looked for.
pub fn to_calendar_date_x8(year: i32, ordinal: u16) -> (r: (i32, u8, u8))
    requires
        1 <= ordinal <= days_in_year(year as int),
    ensures
        r.0 == year,
        r.1 == month_of(year as int, ordinal as int),
        r.2 == day_of(year as int, ordinal as int),
{
    let leap = is_leap_year(year);
    let high = if leap {
        saturating_lanes(ordinal, &LEAP_HIGH)
    } else {
        saturating_lanes(ordinal, &COMMON_HIGH)
    };
    let low = if leap {
        saturating_lanes(ordinal, &LEAP_LOW)
    } else {
        saturating_lanes(ordinal, &COMMON_LOW)
    };
    let high_mask = zero_lane_mask(&high);
    let low_mask = zero_lane_mask(&low);
    let mask = (high_mask << 16) | low_mask;
    proof {
        let lanes = low@ + high@;
        assert forall|j: int| 0 <= j < 16 implies #[trigger] lanes[j] == lane_value(
            year as int,
            ordinal as int,
            j,
        ) by {
            if j < 8 {
                assert(LEAP_LOW@[j] == threshold(2000, j));
                assert(COMMON_LOW@[j] == threshold(2001, j));
                assert(lanes[j] == low@[j]);
            } else {
                assert(LEAP_HIGH@[j - 8] == threshold(2000, j));
                assert(COMMON_HIGH@[j - 8] == threshold(2001, j));
                assert(lanes[j] == high@[j - 8]);
            }
        }
        lemma_join_masks(low_mask, high_mask, low@, high@);
        lemma_first_zero_lane(mask, lanes, year as int, ordinal as int);
        lemma_ordinal_to_calendar(year as int, ordinal as int);
    }
    let month = mask.trailing_zeros() / 2;
    let lane: usize = month as usize - 1;
    let day = if lane < 8 {
        low[lane]
    } else {
        high[lane - 8]
    };
    (year, month as u8, day as u8)
}

} // verus!
