use iso8601_timestamp::calendar::is_leap_year;
use iso8601_timestamp::digits::{
    digit_pair, is_ascii_digit, parse_2, parse_3, parse_4, parse_digits, write_num,
};
use iso8601_timestamp::format::truncate_nanoseconds;
use iso8601_timestamp::formats::{
    full_microseconds, full_milliseconds, full_milliseconds_offset, full_nanoseconds,
    short_milliseconds,
};
use iso8601_timestamp::layout::IsValidFormat;
use iso8601_timestamp::parse::{parse_iso8601, parse_iso8601_lenient};
use iso8601_timestamp::ts_str::template;
use iso8601_timestamp::{ArchivedTimestamp, Duration, FormatString, Timestamp, UtcOffset};

fn at(year: i32, month: u8, day: u8, hour: u8, minute: u8, second: u8, nano: u32) -> Timestamp {
    Timestamp::from_calendar(year, month, day, hour, minute, second, nano).unwrap()
}

fn samples() -> Vec<Timestamp> {
    vec![
        Timestamp::unix_epoch(),
        Timestamp::min(),
        Timestamp::max(),
        at(0, 1, 1, 0, 0, 0, 0),
        at(-1, 12, 31, 23, 59, 59, 999_999_999),
        at(2004, 2, 29, 12, 34, 56, 123_456_789),
        at(2023, 3, 24, 7, 5, 59, 5_432_101),
        at(-4, 12, 16, 10, 0, 0, 1),
        at(1999, 12, 31, 23, 59, 59, 999_999_999),
    ]
}

fn all_layouts() -> Vec<FormatString> {
    let mut layouts = Vec::new();
    for punctuated in [true, false] {
        for offset in [true, false] {
            for precision in 0..=9 {
                layouts.push(FormatString::new(punctuated, offset, precision).unwrap());
            }
        }
    }
    layouts
}

fn cut(ts: Timestamp, precision: u8) -> Timestamp {
    let (hour, minute, second, nano) = ts.as_hms_nano();
    let unit = 10u32.pow(9 - precision as u32);
    ts.replace_time(hour, minute, second, nano - nano % unit).unwrap()
}

#[test]
fn round_trip_in_every_layout() {
    let zero_offsets = [UtcOffset::utc(), UtcOffset::from_hms(0, 0, -1).unwrap()];
    for ts in samples() {
        for layout in all_layouts() {
            for offset in zero_offsets {
                let text = ts.format_raw(layout, offset);
                let want = Some(cut(ts, layout.precision()));
                assert_eq!(Timestamp::parse(text.as_str()), want);
                assert_eq!(Timestamp::parse_lenient(text.as_str()), want);
                assert_eq!(parse_iso8601(text.as_raw_bytes()), want);
                assert_eq!(parse_iso8601_lenient(text.as_bytes()), want);
            }
        }
    }
}

#[test]
fn round_trip_keeps_nanoseconds_at_nine_digits() {
    for ts in samples() {
        assert_eq!(Timestamp::parse(ts.format_nanoseconds().as_str()), Some(ts));
    }
}

#[test]
fn round_trip_with_an_offset_moves_by_the_offset() {
    let ts = at(2004, 2, 29, 12, 34, 56, 123_456_789);
    let ahead = UtcOffset::from_hms(5, 45, 0).unwrap();
    let behind = UtcOffset::from_hms(-5, -45, 0).unwrap();
    let span = Duration::seconds(5 * 3600 + 45 * 60);
    for layout in all_layouts() {
        let base = cut(ts, layout.precision());
        let plus = ts.format_raw(layout, ahead);
        let minus = ts.format_raw(layout, behind);
        if layout.has_offset() {
            assert_eq!(Timestamp::parse(plus.as_str()), base.checked_add(span));
            assert_eq!(Timestamp::parse(minus.as_str()), base.checked_sub(span));
            assert_ne!(Timestamp::parse(plus.as_str()), Some(base));
        } else {
            assert_eq!(Timestamp::parse(plus.as_str()), Some(base));
            assert_eq!(Timestamp::parse(minus.as_str()), Some(base));
        }
    }
}

#[test]
fn length_is_the_formula_of_the_layout() {
    for layout in all_layouts() {
        let p = layout.is_punctuated() as usize;
        let o = layout.has_offset() as usize;
        let f = layout.precision() as usize;
        let formula = 17 + f + (f > 0) as usize + 4 * p + 5 * o;
        assert_eq!(layout.length(), formula);
        assert_eq!(template(layout).as_raw_bytes().len(), formula);
        for ts in samples() {
            let text = ts.format_raw(layout, UtcOffset::utc());
            assert_eq!(text.as_raw_bytes().len(), formula);
            let shown = if ts.year() < 0 { formula } else { formula - 1 };
            assert_eq!(text.len(), shown);
            assert_eq!(text.as_str().len(), shown);
            assert_eq!(text.as_bytes().len(), shown);
            assert_eq!(text.layout(), layout);
        }
    }
    assert_eq!(FormatString::new(false, false, 0).unwrap().length(), 17);
    assert_eq!(FormatString::new(true, true, 9).unwrap().length(), 36);
    assert_eq!(full_milliseconds().length(), 25);
    assert_eq!(full_microseconds().length(), 28);
    assert_eq!(full_nanoseconds().length(), 31);
    assert_eq!(full_milliseconds_offset().length(), 30);
    assert_eq!(short_milliseconds().length(), 21);
}

#[test]
fn skeletons_hold_zeros_and_punctuation() {
    let raw = |p, o, f| {
        let skeleton = template(FormatString::new(p, o, f).unwrap());
        String::from_utf8(skeleton.as_raw_bytes().to_vec()).unwrap()
    };
    assert_eq!(raw(true, true, 0), "+0000-00-00T00:00:00+00:00");
    assert_eq!(raw(true, true, 9), "+0000-00-00T00:00:00.000000000+00:00");
    assert_eq!(raw(true, false, 3), "+0000-00-00T00:00:00.000Z");
    assert_eq!(raw(false, true, 1), "+00000000T000000.0+00:00");
    assert_eq!(raw(false, false, 0), "+00000000T000000Z");
    assert_eq!(raw(false, false, 3), "+00000000T000000.000Z");
    assert_eq!(template(full_milliseconds()).as_str(), "0000-00-00T00:00:00.000Z");
}

#[test]
fn preset_formats() {
    let ts = at(2023, 3, 24, 7, 5, 59, 5_432_101);
    assert_eq!(ts.format().as_str(), "2023-03-24T07:05:59.005Z");
    assert_eq!(ts.format_microseconds().as_str(), "2023-03-24T07:05:59.005432Z");
    assert_eq!(ts.format_nanoseconds().as_str(), "2023-03-24T07:05:59.005432101Z");
    assert_eq!(ts.format_short().as_str(), "20230324T070559.005Z");
    let offset = UtcOffset::from_hms(5, 0, 0).unwrap();
    assert_eq!(ts.format_with_offset(offset).as_str(), "2023-03-24T07:05:59.005+05:00");
    assert_eq!(
        ts.format_with_offset_and_precision(offset, 0).as_str(),
        "2023-03-24T07:05:59+05:00"
    );
    assert_eq!(ts.format_with_precision(1).as_str(), "2023-03-24T07:05:59.0Z");
    assert_eq!(ts.format_with_precision(0).as_str(), "2023-03-24T07:05:59Z");
    assert_eq!(ts.format_raw(full_milliseconds(), offset).as_str(), "2023-03-24T07:05:59.005Z");
}

#[test]
fn leap_years_by_the_gregorian_rule() {
    for year in -9999..=9999 {
        let gregorian = year % 4 == 0 && (year % 100 != 0 || year % 400 == 0);
        assert_eq!(is_leap_year(year), gregorian, "{}", year);
    }
    assert!(is_leap_year(2000));
    assert!(!is_leap_year(1900));
    assert!(is_leap_year(0));
    assert!(is_leap_year(-4));
    assert!(!is_leap_year(-100));
    assert!(is_leap_year(-400));
    assert!(!is_leap_year(i32::MAX));
    assert!(is_leap_year(i32::MIN));
}

#[test]
fn calendar_dates_of_ordinals() {
    assert_eq!(at(2004, 2, 29, 0, 0, 0, 0).ordinal(), 60);
    assert_eq!(at(2005, 3, 1, 0, 0, 0, 0).ordinal(), 60);
    assert_eq!(at(2021, 11, 19, 0, 0, 0, 0).ordinal(), 323);
    assert_eq!(at(2004, 12, 31, 0, 0, 0, 0).ordinal(), 366);
    let ts = Timestamp::from_ordinal(2004, 366, 1, 2, 3, 4).unwrap();
    assert_eq!(ts.to_calendar_date(), (2004, 12, 31));
    assert_eq!(ts.to_calendar_date_scalar(), (2004, 12, 31));
    assert_eq!(ts.as_hms_nano(), (1, 2, 3, 4));
    assert_eq!(ts.year(), 2004);
    assert_eq!(Timestamp::from_ordinal(2005, 1, 0, 0, 0, 0).unwrap().to_calendar_date_scalar(), (2005, 1, 1));
    for year in [-9999, -4, 0, 1900, 2000, 9999] {
        for ordinal in 1..=366u16 {
            let Some(ts) = Timestamp::from_ordinal(year, ordinal, 0, 0, 0, 0) else {
                assert!(ordinal == 366 && !is_leap_year(year));
                continue;
            };
            let (y, m, d) = ts.to_calendar_date();
            assert_eq!((y, m, d), ts.to_calendar_date_scalar());
            assert_eq!(Timestamp::from_calendar(y, m, d, 0, 0, 0, 0), Some(ts));
        }
    }
}

#[test]
fn constructors_refuse_what_does_not_exist() {
    assert!(Timestamp::from_calendar(2021, 13, 1, 0, 0, 0, 0).is_none());
    assert!(Timestamp::from_calendar(2021, 0, 1, 0, 0, 0, 0).is_none());
    assert!(Timestamp::from_calendar(2021, 2, 29, 0, 0, 0, 0).is_none());
    assert!(Timestamp::from_calendar(2020, 2, 29, 0, 0, 0, 0).is_some());
    assert!(Timestamp::from_calendar(2021, 2, 0, 0, 0, 0, 0).is_none());
    assert!(Timestamp::from_calendar(2021, 4, 31, 0, 0, 0, 0).is_none());
    assert!(Timestamp::from_calendar(10000, 1, 1, 0, 0, 0, 0).is_none());
    assert!(Timestamp::from_calendar(-10000, 1, 1, 0, 0, 0, 0).is_none());
    assert!(Timestamp::from_calendar(2021, 1, 1, 24, 0, 0, 0).is_none());
    assert!(Timestamp::from_calendar(2021, 1, 1, 0, 60, 0, 0).is_none());
    assert!(Timestamp::from_calendar(2021, 1, 1, 0, 0, 60, 0).is_none());
    assert!(Timestamp::from_calendar(2021, 1, 1, 0, 0, 0, 1_000_000_000).is_none());
    assert!(Timestamp::from_ordinal(2021, 0, 0, 0, 0, 0).is_none());
    assert!(Timestamp::from_ordinal(2021, 366, 0, 0, 0, 0).is_none());
    assert!(Timestamp::from_ordinal(2020, 367, 0, 0, 0, 0).is_none());
    assert!(Timestamp::from_ordinal(10000, 1, 0, 0, 0, 0).is_none());
    assert!(Timestamp::from_ordinal(2020, 1, 24, 0, 0, 0).is_none());
    let ts = Timestamp::unix_epoch();
    assert!(ts.replace_time(23, 59, 59, 999_999_999).is_some());
    assert!(ts.replace_time(24, 0, 0, 0).is_none());
    assert!(ts.replace_time(0, 60, 0, 0).is_none());
    assert!(ts.replace_time(0, 0, 60, 0).is_none());
    assert!(ts.replace_time(0, 0, 0, 1_000_000_000).is_none());
    assert!(FormatString::new(true, true, 10).is_none());
    assert!(FormatString::new(false, false, 255).is_none());
    assert!(UtcOffset::from_hms(24, 0, 0).is_none());
    assert!(UtcOffset::from_hms(-24, 0, 0).is_none());
    assert!(UtcOffset::from_hms(0, 60, 0).is_none());
    assert!(UtcOffset::from_hms(0, 0, -60).is_none());
    assert!(Duration::from_parts(1, -1).is_none());
    assert!(Duration::from_parts(-1, 1).is_none());
    assert!(Duration::from_parts(0, 1_000_000_000).is_none());
    assert!(Duration::from_parts(0, -999_999_999).is_some());
}

#[test]
fn truncation_not_rounding() {
    let ts = at(2014, 4, 12, 16, 0, 59, 999_999_999);
    assert_eq!(ts.format_with_precision(1).as_str(), "2014-04-12T16:00:59.9Z");
    assert_eq!(ts.format_with_precision(0).as_str(), "2014-04-12T16:00:59Z");
    assert_eq!(ts.format().as_str(), "2014-04-12T16:00:59.999Z");
    assert_eq!(truncate_nanoseconds(999_999_999, 1), 9);
    assert_eq!(truncate_nanoseconds(999_999_999, 0), 0);
    assert_eq!(truncate_nanoseconds(999_999_999, 9), 999_999_999);
    assert_eq!(truncate_nanoseconds(123_456_789, 3), 123);
    assert_eq!(truncate_nanoseconds(5_432_101, 6), 5_432);
    assert_eq!(truncate_nanoseconds(0, 5), 0);
}

#[test]
fn leap_second_is_clamped() {
    let want = Some(at(2016, 12, 31, 23, 59, 59, 999_999_999));
    for text in [
        "2016-12-31T23:59:60Z",
        "2016-12-31T23:59:60.0Z",
        "2016-12-31T23:59:60.123456789Z",
        "2016-12-31T23:59:60,5",
        "20161231T235960.000000001z",
        "2016-12-31 23:59:60+00:00",
    ] {
        assert_eq!(Timestamp::parse(text), want, "{}", text);
        assert_eq!(Timestamp::parse_lenient(text), want, "{}", text);
    }
    // a second above 60 is refused when read strictly, clamped when not
    assert_eq!(Timestamp::parse("2016-12-31T23:59:61Z"), None);
    assert_eq!(Timestamp::parse("2016-12-31T23:59:99.5Z"), None);
    assert_eq!(Timestamp::parse_lenient("2016-12-31T23:59:61Z"), want);
    assert_eq!(Timestamp::parse_lenient("2016-12-31T23:59:99.5Z"), want);
    assert_eq!(
        Timestamp::parse("2016-12-31T23:59:59.5Z"),
        Some(at(2016, 12, 31, 23, 59, 59, 500_000_000))
    );
}

#[test]
fn sign_of_the_year() {
    let before = at(-4, 12, 16, 10, 0, 0, 0);
    let after = at(4, 12, 16, 10, 0, 0, 0);
    assert_eq!(before.format().as_str(), "-0004-12-16T10:00:00.000Z");
    assert_eq!(before.format().as_raw_bytes(), b"-0004-12-16T10:00:00.000Z");
    assert_eq!(after.format().as_str(), "0004-12-16T10:00:00.000Z");
    assert_eq!(after.format().as_raw_bytes(), b"+0004-12-16T10:00:00.000Z");
    assert_eq!(Timestamp::parse("-0004-12-16T10:00:00.000Z"), Some(before));
    assert_eq!(Timestamp::parse("\u{2212}0004-12-16T10:00:00.000Z"), Some(before));
    assert_eq!(Timestamp::parse("+0004-12-16T10:00:00.000Z"), Some(after));
    assert_eq!(Timestamp::parse("0004-12-16T10:00:00.000Z"), Some(after));
    assert_eq!(Timestamp::parse("-0000-01-01"), Timestamp::parse("0000-01-01"));
    assert_eq!(Timestamp::parse("+-0004-12-16"), None);
    assert_eq!(Timestamp::parse("--0004-12-16"), None);
    assert_eq!(Timestamp::parse("\u{2213}0004-12-16"), None);
}

#[test]
fn rejected_texts() {
    let rejected = [
        "",
        "-",
        "+",
        "2021",
        "2021-10",
        "2021-10-1",
        "2021-13-17",
        "2021-00-17",
        "2021-02-29",
        "2021-02-30",
        "2021-04-31",
        "2021-10-00",
        "2021-10-17x",
        "2021-10-17T",
        "2021-10-17T02",
        "2021-10-17T02:0",
        "2021-10-17T24:00:00Z",
        "2021-10-17T02:60:00Z",
        "2021-10-17T02:03:0",
        "2021-10-17T02:03:01X",
        "2021-10-17T02:03:01Zx",
        "2021-10-17T02:03:01Z ",
        "2021-10-17T02:03:01+",
        "2021-10-17T02:03:01+04",
        "2021-10-17T02:03:01+04:",
        "2021-10-17T02:03:01+04:0",
        "2021-10-17T02:03:01+04:000",
        "2021-10-17T02:03:01+04:00Z",
        "2021-10-17T02:03:01\u{e2}04:00",
        "2021-10-17T02:03:01\u{2213}04:00",
        "2021-10-17T02:03:01UT",
        "2021-10-17T02:03:01UTX",
        "2021-10-17T02:03:01UTCZ",
        "2021-10-17T02:03:01.5.5Z",
        "2021-10-17T02:03:01.-5Z",
        "2021--10-17",
        "2021-10--17",
        "2021-10-17T02::03:01Z",
        "20a1-10-17",
        "2021-1o-17",
        "2021-10-1\u{7}",
        "2021-10-17T0A:03:01Z",
        "2021-10-17T02:0\u{1}:01Z",
        "2021-10-17T02:03:01+0a:00",
        "9999\u{1}\u{2}\u{12}UT\u{1}92-+?!\\\0",
        "9999\u{1}\u{2}\u{12};T\u{1}50-+#333",
        "-868686868",
        " 2021-10-17",
        "2021-10-17T02:03:01Z\0",
    ];
    for text in rejected {
        assert_eq!(Timestamp::parse(text), None, "{:?}", text);
        assert_eq!(parse_iso8601(text.as_bytes()), None, "{:?}", text);
    }
    assert_eq!(parse_iso8601(&[0xff, 0xfe]), None);
    assert_eq!(parse_iso8601(b"2021-10-17T02:03:01\xe2\x88"), None);
}

#[test]
fn lenient_reading_takes_low_nibbles() {
    // 'A' is 0x41: read leniently it counts as 1
    assert_eq!(Timestamp::parse("2021-10-17T0A:03:01Z"), None);
    assert_eq!(
        Timestamp::parse_lenient("2021-10-17T0A:03:01Z"),
        Some(at(2021, 10, 17, 1, 3, 1, 0))
    );
    // ':' is 0x3a: ten
    assert_eq!(parse_2(b"1:"), 20);
    assert_eq!(parse_2(b"??"), 165);
    assert_eq!(parse_4(b"????"), 16665);
    assert_eq!(parse_4(b"2021"), 2021);
    assert_eq!(parse_4(b"0007"), 7);
    assert_eq!(parse_2(b"07"), 7);
    // a year beyond 9999 names no date
    assert_eq!(Timestamp::parse_lenient("????-10-17"), None);
    assert_eq!(Timestamp::parse_lenient("2021-10-17T??:03:01Z"), None);
    assert_eq!(Timestamp::parse_lenient("20a1-10-17"), Some(at(2011, 10, 17, 0, 0, 0, 0)));
    // the fraction stops at the first byte that is no digit, either way
    assert_eq!(Timestamp::parse_lenient("2021-10-17T02:03:01.5a"), None);
}

#[test]
fn accepted_variations() {
    let base = at(2013, 10, 7, 8, 23, 19, 120_000_000);
    for text in [
        "2013-10-07 08:23:19.120Z",
        "2013-10-07T08:23:19.120Z",
        "2013-10-07 08:23:19,120Z",
        "2013-10-07t08:23:19,120z",
        "2013-10-07_08:23:19.12",
        "2013-10-07T08:23:19.120",
        "2013-10-07 08:23:19,120",
        "20131007T082319.120UTC",
        "2013-1007T0823:19.120utc",
        "+2013-10-07T08:23:19.120000000999Z",
        "2013-10-07T08:23:19.12+00:00",
        "2013-10-07T08:23:19.12-0000",
        "2013-10-07T08:23:19.12\u{2212}00:00",
    ] {
        assert_eq!(Timestamp::parse(text), Some(base), "{}", text);
    }
    let minute = at(2021, 10, 17, 2, 3, 0, 0);
    assert_eq!(Timestamp::parse("20211017T0203Z"), Some(minute));
    assert_eq!(Timestamp::parse("20211017T0203Z").unwrap().as_hms_nano().2, 0);
    assert_eq!(Timestamp::parse("2021-10-17T02:03"), Some(minute));
    assert_eq!(Timestamp::parse("2021-10-17T02:03:"), Some(minute));
    assert_eq!(Timestamp::parse("2021-10-17T02:03:Z"), Some(minute));
    assert_eq!(Timestamp::parse("2021-10-17T02:03:00."), Some(minute));
    assert_eq!(Timestamp::parse("2021-10-17T02:03:00.Z"), Some(minute));
    let midnight = at(2021, 10, 17, 0, 0, 0, 0);
    assert_eq!(Timestamp::parse("2021-10-17"), Some(midnight));
    assert_eq!(Timestamp::parse("20211017"), Some(midnight));
    assert_eq!(Timestamp::parse("2021-1017"), Some(midnight));
    assert_eq!(Timestamp::parse("202110-17"), Some(midnight));
    assert_eq!(
        Timestamp::parse("2021-10-17T02:03:01.5Z"),
        Some(at(2021, 10, 17, 2, 3, 1, 500_000_000))
    );
    assert_eq!(
        Timestamp::parse("2021-10-17T02:03:01.000000001Z"),
        Some(at(2021, 10, 17, 2, 3, 1, 1))
    );
    assert_eq!(
        Timestamp::parse("2021-10-17T02:03:01.0000000019Z"),
        Some(at(2021, 10, 17, 2, 3, 1, 1))
    );
    assert_eq!(
        Timestamp::parse("2021-10-17T02:03:01.999999999999999999999999Z"),
        Some(at(2021, 10, 17, 2, 3, 1, 999_999_999))
    );
}

#[test]
fn offsets_are_applied_as_written() {
    let local = at(2011, 6, 17, 18, 30, 0, 0);
    assert_eq!(
        Timestamp::parse("2011-06-17T18:30+04:00"),
        local.checked_add(Duration::seconds(4 * 3600))
    );
    assert_eq!(Timestamp::parse("2011-06-17T18:30+04:00"), Some(at(2011, 6, 17, 22, 30, 0, 0)));
    assert_eq!(Timestamp::parse("2011-06-17T18:30-04:00"), Some(at(2011, 6, 17, 14, 30, 0, 0)));
    assert_eq!(
        Timestamp::parse("2011-06-17T18:30\u{2212}04:00"),
        Some(at(2011, 6, 17, 14, 30, 0, 0))
    );
    assert_eq!(Timestamp::parse("2011-06-17T18:30+0630"), Some(at(2011, 6, 18, 1, 0, 0, 0)));
    assert_eq!(Timestamp::parse("2011-06-17T18:30+00:00"), Some(local));
    assert_eq!(Timestamp::parse("2011-06-17T18:30-00:00"), Some(local));
    // the fields of an offset are not held to a range
    assert_eq!(Timestamp::parse("2011-06-17T18:30+99:99"), Some(at(2011, 6, 21, 23, 9, 0, 0)));
    assert_eq!(Timestamp::parse("2011-12-31T23:30+00:30"), Some(at(2012, 1, 1, 0, 0, 0, 0)));
    assert_eq!(Timestamp::parse("2012-03-01T00:00-00:01"), Some(at(2012, 2, 29, 23, 59, 0, 0)));
    // where the calendar ends, so does parsing
    assert_eq!(Timestamp::parse("9999-12-31T23:59:59+00:01"), None);
    assert_eq!(Timestamp::parse("-9999-01-01T00:00:00-00:01"), None);
    assert_eq!(Timestamp::parse("9999-12-31T23:59:59-00:01"), Some(at(9999, 12, 31, 23, 58, 59, 0)));
    assert_eq!(Timestamp::parse("9999-12-31T23:59:59.999999999Z"), Some(Timestamp::max()));
    assert_eq!(Timestamp::parse("-9999-01-01"), Some(Timestamp::min()));
}

#[test]
fn offsets_are_written_as_given() {
    let ts = at(2014, 4, 12, 16, 0, 0, 0);
    let show = |h, m, s| {
        let offset = UtcOffset::from_hms(h, m, s).unwrap();
        ts.format_with_offset_and_precision(offset, 0).as_str().to_owned()
    };
    assert_eq!(show(-4, 30, 0), "2014-04-12T16:00:00-04:30");
    assert_eq!(show(-4, -30, 0), "2014-04-12T16:00:00-04:30");
    assert_eq!(show(4, -30, 0), "2014-04-12T16:00:00+04:30");
    assert_eq!(show(0, -30, 0), "2014-04-12T16:00:00-00:30");
    assert_eq!(show(0, 30, -1), "2014-04-12T16:00:00+00:30");
    assert_eq!(show(0, 0, -1), "2014-04-12T16:00:00-00:00");
    assert_eq!(show(0, 0, 0), "2014-04-12T16:00:00+00:00");
    assert_eq!(show(23, 59, 59), "2014-04-12T16:00:00+23:59");
    assert_eq!(show(-23, -59, -59), "2014-04-12T16:00:00-23:59");
    let offset = UtcOffset::from_hms(-4, 30, 0).unwrap();
    assert!(offset.is_negative());
    assert_eq!(offset.as_hm(), (4, 30));
    assert!(!UtcOffset::utc().is_negative());
    assert_eq!(UtcOffset::utc().as_hm(), (0, 0));
    assert_eq!(UtcOffset::from_hms(0, 0, 0), Some(UtcOffset::utc()));
}

#[test]
fn timestamps_are_ordered_by_time() {
    let mut all = samples();
    all.sort();
    for pair in all.windows(2) {
        let span = pair[1].duration_since(pair[0]);
        assert!(!span.is_negative());
        assert!(pair[0] < pair[1]);
    }
    assert_eq!(all[0], Timestamp::min());
    assert_eq!(all[all.len() - 1], Timestamp::max());
}

#[test]
fn arithmetic_goes_through_the_calendar() {
    let epoch = Timestamp::unix_epoch();
    let day = Duration::seconds(86_400);
    assert_eq!(epoch.checked_add(day), Some(at(1970, 1, 2, 0, 0, 0, 0)));
    assert_eq!(epoch.checked_sub(day), Some(at(1969, 12, 31, 0, 0, 0, 0)));
    assert_eq!(
        epoch.checked_add(Duration::milliseconds(1_634_436_181_000)),
        Some(at(2021, 10, 17, 2, 3, 1, 0))
    );
    assert_eq!(
        epoch.checked_sub(Duration::from_parts(0, 1).unwrap()),
        Some(at(1969, 12, 31, 23, 59, 59, 999_999_999))
    );
    assert_eq!(Timestamp::max().checked_add(Duration::from_parts(0, 1).unwrap()), None);
    assert_eq!(Timestamp::min().checked_sub(Duration::from_parts(0, 1).unwrap()), None);
    assert_eq!(Timestamp::max().checked_sub(Duration::seconds(-1)), None);
    assert_eq!(Timestamp::max().saturating_add(day), Timestamp::max());
    assert_eq!(Timestamp::min().saturating_add(Duration::seconds(-1)), Timestamp::min());
    assert_eq!(Timestamp::min().saturating_sub(day), Timestamp::min());
    assert_eq!(Timestamp::max().saturating_sub(Duration::seconds(-1)), Timestamp::max());
    assert_eq!(epoch.saturating_add(day), at(1970, 1, 2, 0, 0, 0, 0));
    assert_eq!(epoch.saturating_sub(day), at(1969, 12, 31, 0, 0, 0, 0));
    let later = at(1970, 1, 2, 0, 0, 1, 500_000_000);
    let span = later.duration_since(epoch);
    assert_eq!((span.whole_seconds(), span.subsec_nanoseconds()), (86_401, 500_000_000));
    assert_eq!(span.whole_milliseconds(), 86_401_500);
    let back = epoch.duration_since(later);
    assert_eq!((back.whole_seconds(), back.subsec_nanoseconds()), (-86_401, -500_000_000));
    assert_eq!(back.whole_milliseconds(), -86_401_500);
    assert!(back.is_negative());
    assert_eq!(Timestamp::min().to_calendar_date(), (-9999, 1, 1));
    assert_eq!(Timestamp::max().to_calendar_date(), (9999, 12, 31));
    assert_eq!(Timestamp::max().as_hms_nano(), (23, 59, 59, 999_999_999));
}

#[test]
fn durations() {
    let d = Duration::milliseconds(-1500);
    assert_eq!((d.whole_seconds(), d.subsec_nanoseconds()), (-1, -500_000_000));
    assert_eq!(d.whole_milliseconds(), -1500);
    let d = Duration::milliseconds(1999);
    assert_eq!((d.whole_seconds(), d.subsec_nanoseconds()), (1, 999_000_000));
    let d = Duration::from_parts(0, -999_999).unwrap();
    assert_eq!(d.whole_milliseconds(), 0);
    assert!(d.is_negative());
    assert!(!Duration::seconds(0).is_negative());
    assert_eq!(Duration::seconds(7).whole_milliseconds(), 7000);
    assert_eq!(Duration::milliseconds(i64::MIN).whole_milliseconds(), i64::MIN as i128);
    assert_eq!(Duration::milliseconds(i64::MAX).whole_milliseconds(), i64::MAX as i128);
    assert_eq!(Duration::seconds(i64::MIN).whole_milliseconds(), i64::MIN as i128 * 1000);
}

#[test]
fn milliseconds_round_trip() {
    for ts in samples() {
        let archived = ArchivedTimestamp::from_timestamp(ts);
        let back = archived.to_timestamp();
        if ts >= Timestamp::unix_epoch() {
            assert_eq!(back, cut(ts, 3));
        } else {
            // before the epoch the count is rounded toward the epoch
            assert!(cut(ts, 3) <= back && back <= ts.saturating_add(Duration::milliseconds(1)));
        }
        let again = ArchivedTimestamp::from_timestamp(back);
        assert_eq!(again.get(), archived.get());
    }
    let ts = at(2021, 10, 17, 2, 3, 1, 999_999);
    assert_eq!(ArchivedTimestamp::from_timestamp(ts).get(), 1_634_436_181_000);
    assert_eq!(ArchivedTimestamp(1_634_436_181_000).to_timestamp(), at(2021, 10, 17, 2, 3, 1, 0));
    assert_eq!(ArchivedTimestamp::from_timestamp(Timestamp::unix_epoch()).get(), 0);
    let ts = at(2024, 9, 1, 12, 32, 0, 123_456_789);
    let back = ArchivedTimestamp::from_timestamp(ts).to_timestamp();
    assert_eq!(back, at(2024, 9, 1, 12, 32, 0, 123_000_000));
    // before the epoch the count is rounded toward the epoch
    let ts = at(1969, 12, 31, 23, 59, 59, 999_500_000);
    assert_eq!(ArchivedTimestamp::from_timestamp(ts).get(), 0);
    let ts = at(1969, 12, 31, 23, 59, 59, 998_500_000);
    assert_eq!(ArchivedTimestamp::from_timestamp(ts).get(), -1);
    // an offset out of the calendar falls back to the epoch
    assert_eq!(ArchivedTimestamp(i64::MAX).to_timestamp(), Timestamp::unix_epoch());
    assert_eq!(ArchivedTimestamp(i64::MIN).to_timestamp(), Timestamp::unix_epoch());
}

#[test]
fn digits_are_written_in_place() {
    let mut buf = [b'x'; 36];
    write_num(&mut buf, 3, 7, 4);
    assert_eq!(&buf[..9], b"xxx0007xx");
    write_num(&mut buf, 0, 123, 3);
    assert_eq!(&buf[..9], b"1230007xx");
    write_num(&mut buf, 27, 999_999_999, 9);
    assert_eq!(&buf[25..], b"xx999999999");
    write_num(&mut buf, 10, 5, 1);
    write_num(&mut buf, 11, 42, 2);
    write_num(&mut buf, 13, 0, 0);
    assert_eq!(&buf[9..14], b"x542x");
    write_num(&mut buf, 14, 12_345_678, 8);
    assert_eq!(&buf[14..22], b"12345678");
}

#[test]
fn digits_by_their_fields() {
    for n in 0..100u32 {
        let (tens, ones) = digit_pair(n);
        assert_eq!((tens, ones), (b'0' + (n / 10) as u8, b'0' + (n % 10) as u8));
    }
    for n in 0..1000u16 {
        let text = format!("{n:03}");
        assert_eq!(parse_3(text.as_bytes()), n);
    }
    assert_eq!(parse_3(b"???"), 1665);
    assert_eq!(parse_3(b"1:0"), 200);
    for b in 0..=255u8 {
        assert_eq!(is_ascii_digit(b), b.is_ascii_digit());
    }
}

#[test]
fn fields_of_a_timestamp() {
    let ts = at(2004, 2, 29, 12, 34, 56, 123_456_789);
    assert_eq!(
        (ts.year(), ts.month(), ts.day(), ts.hour(), ts.minute(), ts.second(), ts.nanosecond()),
        (2004, 2, 29, 12, 34, 56, 123_456_789)
    );
    assert_eq!(ts.ordinal(), 60);
    assert_eq!((Timestamp::max().month(), Timestamp::max().day()), (12, 31));
    assert_eq!(Timestamp::saturate(Some(ts), true), ts);
    assert_eq!(Timestamp::saturate(Some(ts), false), ts);
    assert_eq!(Timestamp::saturate(None, true), Timestamp::min());
    assert_eq!(Timestamp::saturate(None, false), Timestamp::max());
    assert_eq!(Timestamp::or_unix_epoch(Some(ts)), ts);
    assert_eq!(Timestamp::or_unix_epoch(None), Timestamp::unix_epoch());
    assert_eq!(Timestamp::from_unix_seconds(86_400), Some(at(1970, 1, 2, 0, 0, 0, 0)));
    assert_eq!(Timestamp::from_unix_seconds(-1), Some(at(1969, 12, 31, 23, 59, 59, 0)));
    assert_eq!(Timestamp::from_unix_seconds(i64::MAX), None);
    assert_eq!(Timestamp::from_unix_milliseconds(-1), Some(at(1969, 12, 31, 23, 59, 59, 999_000_000)));
    assert_eq!(Timestamp::from_unix_milliseconds(i64::MIN), None);
    assert_eq!(Timestamp::from_unix_milliseconds_unsigned(1_001), Some(at(1970, 1, 1, 0, 0, 1, 1_000_000)));
    assert_eq!(Timestamp::from_unix_milliseconds_unsigned(u64::MAX), None);
    assert_eq!(Timestamp::max().unix_milliseconds(), 253_402_300_799_999);
    assert_eq!(Timestamp::min().unix_milliseconds(), -377_705_116_800_000);
}

#[test]
fn formatted_texts_compare_by_what_they_show() {
    let ts = at(2023, 3, 24, 7, 5, 59, 5_432_101);
    let text = ts.format();
    assert!(text.eq_str("2023-03-24T07:05:59.005Z"));
    assert!(!text.eq_str("+2023-03-24T07:05:59.005Z"));
    assert!(!text.eq_str("2023-03-24T07:05:59.005"));
    assert!(!text.eq_str(""));
    assert_eq!(text.to_string(), "2023-03-24T07:05:59.005Z");
    assert_eq!(ts.to_string(), "2023-03-24T07:05:59.005Z");
    assert_eq!(Timestamp::unix_epoch().to_string(), "1970-01-01T00:00:00.000Z");
    assert!(text == at(2023, 3, 24, 7, 5, 59, 5_999_999).format());
    assert!(text != at(2023, 3, 24, 7, 5, 59, 6_000_000).format());
    assert!(text != ts.format_short());
    assert!(text != ts.format_with_offset(UtcOffset::utc()));
    assert!(ts.format_with_precision(3) == text);
    let before = at(-2023, 3, 24, 7, 5, 59, 5_432_101).format();
    assert!(before.eq_str("-2023-03-24T07:05:59.005Z"));
    assert!(before != text);
}

#[test]
fn digits_are_read_strictly_or_not() {
    assert_eq!(parse_digits(b"", true), None);
    assert_eq!(parse_digits(b"", false), None);
    assert_eq!(parse_digits(b"0", true), Some(0));
    assert_eq!(parse_digits(b"007", true), Some(7));
    assert_eq!(parse_digits(b"4294967295", true), Some(u32::MAX));
    assert_eq!(parse_digits(b"4294967296", true), None);
    assert_eq!(parse_digits(b"4294967296", false), None);
    assert_eq!(parse_digits(b"99999999999", false), None);
    assert_eq!(parse_digits(b"00000000004294967295", true), Some(u32::MAX));
    assert_eq!(parse_digits(b"12a", true), None);
    assert_eq!(parse_digits(b"12a", false), Some(121));
    assert_eq!(parse_digits(b"1:", false), Some(20));
    assert_eq!(parse_digits(b" 1", true), None);
}
