use osm2rdf::dates::format_ts;

fn ts(ms: i64) -> Vec<u8> {
    format_ts(ms)
}

#[test]
fn epoch_renders_as_zero() {
    assert_eq!(ts(0), b"1970-01-01T00:00:00Z".to_vec());
}

#[test]
fn known_timestamp_renders() {
    assert_eq!(ts(1600000000000), b"2020-09-13T12:26:40Z".to_vec());
}

#[test]
fn fractional_milliseconds_render_when_nonzero() {
    assert_eq!(ts(1600000000123), b"2020-09-13T12:26:40.123Z".to_vec());
    assert_eq!(ts(1600000000007), b"2020-09-13T12:26:40.007Z".to_vec());
}

#[test]
fn negative_timestamps_render() {
    assert_eq!(ts(-1000), b"1969-12-31T23:59:59Z".to_vec());
    assert_eq!(ts(-86400000), b"1969-12-31T00:00:00Z".to_vec());
    assert_eq!(ts(-500), b"1969-12-31T23:59:59.500Z".to_vec());
}

#[test]
fn leap_day_renders() {
    assert_eq!(ts(951782400000), b"2000-02-29T00:00:00Z".to_vec());
}

#[test]
fn year_before_epoch_renders() {
    // 1969-01-01T00:00:00Z is 365 days before the epoch.
    assert_eq!(ts(-365i64 * 86400 * 1000), b"1969-01-01T00:00:00Z".to_vec());
}

#[test]
fn far_future_year_renders() {
    // 3000-01-01T00:00:00Z.
    assert_eq!(ts(32503680000000), b"3000-01-01T00:00:00Z".to_vec());
}

/// A straightforward ISO-8601 UTC parser for checking the formatter.
fn parse_iso(text: &str) -> i64 {
    let (neg, rest) = match text.strip_prefix('-') {
        Some(r) => (true, r),
        None => (false, text),
    };
    let digits = rest.bytes().take_while(|b| b.is_ascii_digit()).count();
    let year: i64 = rest[..digits].parse().unwrap();
    let year = if neg { -year } else { year };
    let rest = rest[digits..].as_bytes();
    let num = |a: usize, b: usize| -> i64 {
        std::str::from_utf8(&rest[a..b]).unwrap().parse().unwrap()
    };
    assert_eq!(rest[0], b'-');
    let (month, day) = (num(1, 3), num(4, 6));
    assert_eq!(rest[6], b'T');
    let (hour, minute, second) = (num(7, 9), num(10, 12), num(13, 15));
    let millis = if rest.len() == 20 {
        assert_eq!(rest[15], b'.');
        num(16, 19)
    } else {
        assert_eq!(rest.len(), 16);
        0
    };
    assert_eq!(*rest.last().unwrap(), b'Z');
    // Days since the epoch, by walking years and months.
    let leap = |y: i64| (y.rem_euclid(4) == 0 && y.rem_euclid(100) != 0) || y.rem_euclid(400) == 0;
    let mut days: i64 = 0;
    if year >= 1970 {
        for y in 1970..year {
            days += if leap(y) { 366 } else { 365 };
        }
    } else {
        for y in year..1970 {
            days -= if leap(y) { 366 } else { 365 };
        }
    }
    let lengths = [31, 28, 31, 30, 31, 30, 31, 31, 30, 31, 30, 31];
    for m in 1..month {
        days += lengths[(m - 1) as usize] + if m == 2 && leap(year) { 1 } else { 0 };
    }
    days += day - 1;
    ((days * 86400 + hour * 3600 + minute * 60 + second) * 1000) + millis
}

#[test]
fn formatter_round_trips_through_iso_parser() {
    let samples: [i64; 9] = [
        0,
        1,
        -1,
        999,
        -999,
        1600000000123,
        -86400000,
        951782400000,
        32503680000000,
    ];
    for ms in samples {
        let text = String::from_utf8(ts(ms)).unwrap();
        assert_eq!(parse_iso(&text), ms, "round trip failed for {}", text);
    }
}
