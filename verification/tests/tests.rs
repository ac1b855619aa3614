use iso8601_timestamp::{Duration, FormatString, Timestamp, UtcOffset};

#[test]
fn test_parse_iso8601_variations() {
    let fixtures = [
        "2021-10-17T02:03:01+00:00",
        "2021-10-17t02:03:01+10:00",
        "2021-10-17",
        "20211017",
        "2021-10-17 02:03:01+00:00",
        "2021-10-17T02:03+00:00",
        "2021-10-17t02:03+10:00",
        "2021-10-17 02:03+00:00",
        "-2021-10-17T02:03+00:00",
        "-2021-10-17t02:03+10:00",
        "-2021-10-17 02:03+00:00",
        "2021-10-17t02:03+00:00", // without seconds
        "2021-10-17t02:03:01.111+00:00",
        "2021-10-17T02:03:01-00:00",
        "2021-10-17T02:03:01−04:00", // UNICODE MINUS SIGN in offset
        "2021-10-17T02:03:01Z",
        "20211017T020301Z",
        "20211017t020301z",
        "20211017T0203z", // without seconds
        "20211017T020301.123Z",
        "20211017T020301.123+00:00",
        "20211017T020301.123uTc",
        "2013-10-07 08:23:19.120Z",
        "2013-10-07T08:23:19.120Z",
        "2013-10-07 08:23:19,120Z",
        "2013-10-07T08:23:19,120Z",
        "2013-10-07T08:23:19.120",
        "2013-10-07 08:23:19,120",
        "2013-10-07T08:23:19",
        "+2013-10-07T08:23:19",
        "−2013-10-07T08:23:19",
        "2013-10-07 04:23:19.120-04:00",
    ];

    for fixture in fixtures {
        let parsed = Timestamp::parse(fixture);

        assert!(parsed.is_some(), "Failed to parse: {}", fixture);

        println!("{:?}", parsed.unwrap());
    }
}

#[test]
fn test_parse_negative() {
    let ts = Timestamp::from_calendar(-4, 12, 16, 10, 0, 0, 0).unwrap();

    let tsf = ts.format();

    assert_eq!(tsf.as_str(), "-0004-12-16T10:00:00.000Z");
    assert_eq!(Timestamp::parse("−0004-12-16T10:00:00.000Z"), Some(ts));
}

#[test]
fn test_parse_nanoseconds() {
    let parsed = Timestamp::parse("2021-11-19T04:12:54.000123Z").unwrap();

    let expected = Timestamp::from_calendar(2021, 11, 19, 4, 12, 54, 123000).unwrap();

    assert_eq!(parsed, expected);
}

#[test]
fn test_invalid() {
    let parsed = Timestamp::parse("-868686868");

    assert!(parsed.is_none());
}

#[test]
fn test_offset() {
    let ts = Timestamp::from_calendar(2014, 4, 12, 16, 0, 0, 0).unwrap();
    let o = UtcOffset::from_hms(-4, 30, 0).unwrap();

    let formatted = ts.format_with_offset(o);

    assert_eq!("2014-04-12T16:00:00.000-04:30", formatted.as_str());

    // An offset written with `+` is added to the time written, one written
    // with `-` is taken from it.
    let ts = Timestamp::parse("2011-06-17T18:30-04:00").unwrap();

    assert_eq!(ts, Timestamp::parse("2011-06-17T14:30:00.000Z").unwrap());
    assert_eq!(ts, Timestamp::parse("+2011-06-17T14:30:00.000Z").unwrap());
    assert_eq!(ts, Timestamp::from_calendar(2011, 6, 17, 14, 30, 0, 0).unwrap());
    assert_eq!(
        Timestamp::parse("2011-06-17T18:30+04:00").unwrap(),
        Timestamp::from_calendar(2011, 6, 17, 22, 30, 0, 0).unwrap()
    );
    assert_eq!(
        Timestamp::parse("2000-01-01T00:00:00+11:00").unwrap(),
        Timestamp::from_calendar(2000, 1, 1, 11, 0, 0, 0).unwrap()
    );
}

fn check_format(
    ts: Timestamp,
    read_back: Timestamp,
    punctuated: bool,
    with_offset: bool,
    precision: u8,
    offset: UtcOffset,
    expected: &str,
) {
    let layout = FormatString::new(punctuated, with_offset, precision).unwrap();
    let res = ts.format_raw(layout, offset);
    assert_eq!(res.as_str(), expected);
    assert_eq!(Timestamp::parse(res.as_str()), Some(read_back));
}

#[test]
fn test_all_formats() {
    let ts = Timestamp::from_calendar(2014, 4, 12, 16, 0, 0, 0).unwrap();
    let utc = UtcOffset::utc();

    check_format(ts, ts, true, false, 0, utc, "2014-04-12T16:00:00Z");
    check_format(ts, ts, true, false, 1, utc, "2014-04-12T16:00:00.0Z");
    check_format(ts, ts, true, false, 2, utc, "2014-04-12T16:00:00.00Z");
    check_format(ts, ts, true, false, 3, utc, "2014-04-12T16:00:00.000Z");
    check_format(ts, ts, true, false, 4, utc, "2014-04-12T16:00:00.0000Z");
    check_format(ts, ts, true, false, 5, utc, "2014-04-12T16:00:00.00000Z");
    check_format(ts, ts, true, false, 6, utc, "2014-04-12T16:00:00.000000Z");
    check_format(ts, ts, true, false, 7, utc, "2014-04-12T16:00:00.0000000Z");
    check_format(ts, ts, true, false, 8, utc, "2014-04-12T16:00:00.00000000Z");
    check_format(ts, ts, true, false, 9, utc, "2014-04-12T16:00:00.000000000Z");

    check_format(ts, ts, false, false, 0, utc, "20140412T160000Z");
    check_format(ts, ts, false, false, 1, utc, "20140412T160000.0Z");
    check_format(ts, ts, false, false, 2, utc, "20140412T160000.00Z");
    check_format(ts, ts, false, false, 3, utc, "20140412T160000.000Z");
    check_format(ts, ts, false, false, 4, utc, "20140412T160000.0000Z");
    check_format(ts, ts, false, false, 5, utc, "20140412T160000.00000Z");
    check_format(ts, ts, false, false, 6, utc, "20140412T160000.000000Z");
    check_format(ts, ts, false, false, 7, utc, "20140412T160000.0000000Z");
    check_format(ts, ts, false, false, 8, utc, "20140412T160000.00000000Z");
    check_format(ts, ts, false, false, 9, utc, "20140412T160000.000000000Z");

    let offset = UtcOffset::from_hms(15, 30, 0).unwrap();
    // the offset is written as given, and added when it is read back
    let ts2 = ts.checked_add(Duration::seconds(15 * 3600 + 30 * 60)).unwrap();
    assert_eq!(ts2, Timestamp::from_calendar(2014, 4, 13, 7, 30, 0, 0).unwrap());

    check_format(ts, ts2, true, true, 0, offset, "2014-04-12T16:00:00+15:30");
    check_format(ts, ts2, true, true, 1, offset, "2014-04-12T16:00:00.0+15:30");
    check_format(ts, ts2, true, true, 2, offset, "2014-04-12T16:00:00.00+15:30");
    check_format(ts, ts2, true, true, 3, offset, "2014-04-12T16:00:00.000+15:30");
    check_format(ts, ts2, true, true, 4, offset, "2014-04-12T16:00:00.0000+15:30");
    check_format(ts, ts2, true, true, 5, offset, "2014-04-12T16:00:00.00000+15:30");
    check_format(ts, ts2, true, true, 6, offset, "2014-04-12T16:00:00.000000+15:30");
    check_format(ts, ts2, true, true, 7, offset, "2014-04-12T16:00:00.0000000+15:30");
    check_format(ts, ts2, true, true, 8, offset, "2014-04-12T16:00:00.00000000+15:30");
    check_format(ts, ts2, true, true, 9, offset, "2014-04-12T16:00:00.000000000+15:30");

    check_format(ts, ts2, false, true, 0, offset, "20140412T160000+15:30");
    check_format(ts, ts2, false, true, 1, offset, "20140412T160000.0+15:30");
    check_format(ts, ts2, false, true, 2, offset, "20140412T160000.00+15:30");
    check_format(ts, ts2, false, true, 3, offset, "20140412T160000.000+15:30");
    check_format(ts, ts2, false, true, 4, offset, "20140412T160000.0000+15:30");
    check_format(ts, ts2, false, true, 5, offset, "20140412T160000.00000+15:30");
    check_format(ts, ts2, false, true, 6, offset, "20140412T160000.000000+15:30");
    check_format(ts, ts2, false, true, 7, offset, "20140412T160000.0000000+15:30");
    check_format(ts, ts2, false, true, 8, offset, "20140412T160000.00000000+15:30");
    check_format(ts, ts2, false, true, 9, offset, "20140412T160000.000000000+15:30");
}

#[test]
fn test_bad_inputs() {
    assert!(Timestamp::parse("9999\u{1}\u{2}\u{12}UT\u{1}92-+?!\\\0").is_none());
    assert!(Timestamp::parse("9999\u{1}\u{2}\u{12};T\u{1}50-+#333").is_none());
    // read leniently, both name a time in the last days of the year 9999
    // and an offset that leads out of the calendar
    assert!(Timestamp::parse_lenient("9999\u{1}\u{2}\u{12}UT\u{1}92-+?!\\\0").is_none());
    assert!(Timestamp::parse_lenient("9999\u{1}\u{2}\u{12};T\u{1}50-+#333").is_none());
    assert_eq!(
        Timestamp::parse_lenient("9999\u{1}\u{2}\u{12};T\u{1}50-"),
        Timestamp::from_calendar(9999, 12, 31, 15, 13, 0, 0)
    );
}
