use iso8601_timestamp::calendar::{to_calendar_date_x16, to_calendar_date_x8};
use iso8601_timestamp::digits::{parse_2, parse_4, parse_digits};
use iso8601_timestamp::formats::short_milliseconds;
use iso8601_timestamp::layout::IsValidFormat;
use iso8601_timestamp::ts_str::template;
use iso8601_timestamp::{ArchivedTimestamp, FormatString, Timestamp, UtcOffset};

#[test]
fn format_test_to_calendar_date() {
    for year in &[2004, 2005, 2006] {
        for ordinal in 0..367 {
            let Ok(date) = time::Date::from_ordinal_date(*year, ordinal) else {
                continue;
            };

            let avx2 = to_calendar_date_x16(*year, ordinal);
            let sse2 = to_calendar_date_x8(*year, ordinal);
            let none = {
                let (y, m, d) = date.to_calendar_date();
                (y, m as u8, d)
            };

            assert_eq!(none, avx2);
            assert_eq!(none, sse2);
        }
    }
}

#[test]
fn impls_test_to_calendar_date() {
    for year in &[2004, 2005, 2006] {
        for ordinal in 0..367 {
            let Some(ts) = Timestamp::from_ordinal(*year, ordinal, 0, 0, 0, 0) else {
                continue;
            };

            let (avx2, sse2, none) = (
                ts.to_calendar_date(),
                to_calendar_date_x8(*year, ordinal),
                ts.to_calendar_date_scalar(),
            );

            assert_eq!(none, avx2);
            assert_eq!(none, sse2);
        }
    }
}

#[test]
fn test_template() {
    let now = Timestamp::from_calendar(2023, 3, 24, 7, 5, 59, 5_432_101).unwrap();
    let offset = UtcOffset::from_hms(-6, 0, 0).unwrap();

    for punctuated in [true, false] {
        for with_offset in [true, false] {
            for precision in 0..=9 {
                let layout = FormatString::new(punctuated, with_offset, precision).unwrap();
                let skeleton = template(layout);
                let text = now.format_raw(layout, offset);
                println!(
                    "{} -> {}",
                    std::str::from_utf8(skeleton.as_raw_bytes()).unwrap(),
                    text.as_str()
                );
                assert_eq!(skeleton.as_raw_bytes().len(), layout.length());
                assert_eq!(text.as_raw_bytes().len(), layout.length());
            }
        }
    }
}

#[test]
fn test_short_ms_length() {
    // ensure the short format could fit within a smolstr/compact_str
    assert_eq!(short_milliseconds().length(), "+20230324T070559.005Z".len());

    assert!("+20230324T070559.005Z".len() <= 23);
}

#[test]
fn test_parse_int() {
    let i = parse_digits(b"1234567890", false);

    assert_eq!(i, Some(1234567890));
    assert_eq!(parse_digits(b"1234567890", true), Some(1234567890));
}

#[test]
fn test_parse_int2() {
    for i in 0..=99 {
        let s = format!("{i:02}");
        let res = parse_2(s.as_bytes());
        assert_eq!(res, i);
    }
}

#[test]
fn test_parse_int4() {
    for i in 0..=9999 {
        let s = format!("{i:04}");
        let res = parse_4(s.as_bytes());
        assert_eq!(res, i);
    }
}

#[test]
fn rkyv_08_test_rkyv() {
    let ts = Timestamp::from_calendar(2024, 9, 1, 12, 32, 0, 123_000_000).unwrap();

    let archived = ArchivedTimestamp::from_timestamp(ts);
    let de = archived.to_timestamp();

    assert_eq!(ts, de);
}

#[test]
fn rkyv_07_test_rkyv() {
    let ts = Timestamp::from_calendar(2024, 9, 1, 12, 32, 0, 123_000_000).unwrap();

    let archived = ArchivedTimestamp::from_timestamp(ts);

    println!("{:?}", archived);

    let de = ArchivedTimestamp(archived.get()).to_timestamp();

    assert_eq!(ts, de);
}

#[test]
fn test_bson() {
    // a date as `{ "$date": string }` and as `{ "$date": { "$numberLong": string } }`
    let a = "2021-10-17T02:03:01+00:00";
    let b = "1634436181000";

    let ta = Timestamp::parse(a).unwrap();
    let tb = Timestamp::from_unix_milliseconds(b.parse().unwrap()).unwrap();

    assert_eq!(ta, tb);
    assert_eq!(Timestamp::from_unix_milliseconds_unsigned(b.parse().unwrap()), Some(ta));
    assert_eq!(Timestamp::from_unix_seconds(1634436181), Some(ta));
    assert_eq!(ta.unix_milliseconds(), 1634436181000);
}

#[test]
fn test_cbor() {
    let a = 42;
    let t = Timestamp::from_calendar(2023, 3, 24, 7, 5, 59, 5_432_101).unwrap();

    let buf = [a, t.unix_milliseconds()];

    let now = Timestamp::from_unix_milliseconds(buf[1]).unwrap();
    assert_eq!(now, t.replace_time(7, 5, 59, 5_000_000).unwrap());
}
