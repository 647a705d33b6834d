use contrac::DowntimeInterval;
use contrac::Sample;
use contrac::format_datetime;
use contrac::format_downtime_line;
use contrac::format_downtime_log;
use contrac::format_sample_line;
use contrac::format_samples_log;
use contrac::parse_sample_line;

fn sample(timestamp: u128, rtt: Option<u16>) -> Sample {
    Sample {
        destination: b"208.67.222.222".to_vec(),
        timestamp,
        rtt,
    }
}

fn datetime_bytes(ts: u128) -> Vec<u8> {
    let mut out = Vec::new();
    assert!(format_datetime(&mut out, ts));
    out
}

fn chrono_text(ts: u128) -> String {
    let secs = (ts / 1_000_000_000) as i64;
    let nanos = (ts % 1_000_000_000) as u32;
    let dt = chrono::DateTime::from_timestamp(secs, nanos).unwrap();
    dt.format("%Y-%m-%d %H:%M:%S%.9f").to_string()
}

#[test]
fn datetime_at_epoch() {
    let out = datetime_bytes(0);
    assert_eq!(out, b"1970-01-01 00:00:00.000000000".to_vec());
}

#[test]
fn datetime_matches_chrono_on_awkward_instants() {
    let stamps: [u128; 8] = [
        0,
        86_399_999_999_999,              // last nanosecond of the first day
        951_826_154_000_000_123,         // inside February 2000 (leap year)
        951_868_800_000_000_000,         // 2000-02-29 exactly
        1_078_012_800_000_000_000,       // 2004-02-29
        4_107_542_399_000_000_000,       // 2100-02-28 23:59:59 (not a leap year)
        1_700_000_000_123_456_789,
        253_402_300_799_999_999_999,     // 9999-12-31 23:59:59.999999999
    ];
    for &ts in stamps.iter() {
        let ours = String::from_utf8(datetime_bytes(ts)).unwrap();
        assert_eq!(ours, chrono_text(ts), "timestamp {}", ts);
    }
}

#[test]
fn datetime_refuses_year_10000() {
    let mut out = Vec::new();
    assert!(!format_datetime(&mut out, 253_402_300_800_000_000_000));
    assert!(out.is_empty());
    assert!(!format_datetime(&mut out, u128::MAX));
}

#[test]
fn sample_line_shape() {
    let line = format_sample_line(&sample(0, Some(23))).unwrap();
    assert_eq!(
        line,
        b"1970-01-01 00:00:00.000000000, 23, 208.67.222.222\r\n".to_vec()
    );
    let line = format_sample_line(&sample(0, None)).unwrap();
    assert_eq!(
        line,
        b"1970-01-01 00:00:00.000000000, timeout, 208.67.222.222\r\n".to_vec()
    );
}

#[test]
fn sample_line_round_trips() {
    let cases = [
        sample(0, Some(1)),
        sample(1_700_000_000_123_456_789, Some(65535)),
        sample(951_868_800_000_000_000, None),
        Sample {
            destination: Vec::new(),
            timestamp: 42,
            rtt: Some(0),
        },
        Sample {
            destination: b"host, with comma".to_vec(),
            timestamp: 1_000,
            rtt: None,
        },
    ];
    for case in cases.iter() {
        let line = format_sample_line(case).unwrap();
        let (ts, rtt, dest) = parse_sample_line(&line).unwrap();
        assert_eq!(ts, case.timestamp);
        assert_eq!(rtt, case.rtt);
        assert_eq!(dest, case.destination);
    }
}

#[test]
fn sample_line_formatting_fails_beyond_year_9999() {
    assert!(format_sample_line(&sample(u128::MAX, Some(1))).is_none());
}

#[test]
fn malformed_lines_do_not_parse() {
    assert!(parse_sample_line(b"").is_none());
    assert!(parse_sample_line(b"not a line\r\n").is_none());
    // Bad separator after the datetime field.
    assert!(parse_sample_line(b"1970-01-01 00:00:00.000000000; 23, x\r\n").is_none());
    // Round-trip time too large for sixteen bits.
    assert!(parse_sample_line(b"1970-01-01 00:00:00.000000000, 65536, x\r\n").is_none());
    // Not a number and not the timeout word.
    assert!(parse_sample_line(b"1970-01-01 00:00:00.000000000, fast, x\r\n").is_none());
    // Missing line ending.
    assert!(parse_sample_line(b"1970-01-01 00:00:00.000000000, 23, x").is_none());
    // Month out of range.
    assert!(parse_sample_line(b"1970-13-01 00:00:00.000000000, 23, x\r\n").is_none());
    // Day out of range for February 1970.
    assert!(parse_sample_line(b"1970-02-29 00:00:00.000000000, 23, x\r\n").is_none());
}

#[test]
fn downtime_line_shape() {
    let iv = DowntimeInterval {
        start: 1_000_000_000,
        end: 3_000_000_000,
    };
    let line = format_downtime_line(&iv).unwrap();
    assert_eq!(
        line,
        b"1970-01-01 00:00:01.000000000, 1970-01-01 00:00:03.000000000, 2\r\n".to_vec()
    );

    // Fractional seconds keep only their significant digits.
    let iv = DowntimeInterval {
        start: 0,
        end: 2_500_000_000,
    };
    let line = format_downtime_line(&iv).unwrap();
    assert!(line.ends_with(b", 2.5\r\n"));

    let iv = DowntimeInterval {
        start: 0,
        end: 2_050_000_000,
    };
    let line = format_downtime_line(&iv).unwrap();
    assert!(line.ends_with(b", 2.05\r\n"));

    let iv = DowntimeInterval {
        start: 0,
        end: 2_051_000_000,
    };
    let line = format_downtime_line(&iv).unwrap();
    assert!(line.ends_with(b", 2.051\r\n"));
}

#[test]
fn whole_logs_concatenate_lines() {
    let samples = vec![
        sample(0, Some(10)),
        sample(1_000_000_000, None),
        sample(2_000_000_000, None),
        sample(3_000_000_000, Some(12)),
    ];
    let raw = format_samples_log(&samples).unwrap();
    let text = String::from_utf8(raw).unwrap();
    assert_eq!(text.matches("\r\n").count(), 4);
    assert!(text.contains(", timeout, "));

    let downtime = format_downtime_log(&samples).unwrap();
    let text = String::from_utf8(downtime).unwrap();
    assert_eq!(
        text,
        "1970-01-01 00:00:01.000000000, 1970-01-01 00:00:03.000000000, 2\r\n"
    );
}

#[test]
fn whole_log_fails_if_any_sample_is_unrenderable() {
    let samples = vec![sample(0, Some(10)), sample(u128::MAX, Some(1))];
    assert!(format_samples_log(&samples).is_none());
}
