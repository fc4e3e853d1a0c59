use std::time::Duration;
use vtt::{parse_seconds_ms, VttParseError, VttTimestamp};

#[test]
fn test_parse_timestamp() {
    let timestamp = VttTimestamp::from_str("01:23:45.678").unwrap();
    assert_eq!(timestamp.as_duration(), Duration::from_millis(5025678));

    let timestamp = VttTimestamp::from_str("23:45.678").unwrap();
    assert_eq!(timestamp.as_duration(), Duration::from_millis(1425678));
}

#[test]
fn test_timestamp_display() {
    let timestamp = VttTimestamp::new(Duration::from_millis(5025678));
    assert_eq!(timestamp.to_string(), "01:23:45.678");
}

#[test]
fn timestamp_total_is_sum_of_units() {
    let timestamp = VttTimestamp::from_str("2:03:04.005").unwrap();
    assert_eq!(timestamp.as_millis(), 2 * 3_600_000 + 3 * 60_000 + 4 * 1_000 + 5);
}

#[test]
fn timestamp_written_in_canonical_form() {
    assert_eq!(VttTimestamp::from_str("1:2:3").unwrap().to_string(), "01:02:03.000");
    assert_eq!(VttTimestamp::from_str("2:3.4").unwrap().to_string(), "00:02:03.400");
    assert_eq!(VttTimestamp::from_millis(0).to_string(), "00:00:00.000");
    assert_eq!(VttTimestamp::from_millis(59_999).to_string(), "00:00:59.999");
    assert_eq!(VttTimestamp::from_millis(3_599_999).to_string(), "00:59:59.999");
}

#[test]
fn timestamp_hours_take_the_digits_they_need() {
    let timestamp = VttTimestamp::from_millis(123 * 3_600_000 + 4 * 60_000 + 5 * 1_000 + 6);
    assert_eq!(timestamp.to_string(), "123:04:05.006");
    assert_eq!(VttTimestamp::from_str("123:04:05.006").unwrap(), timestamp);
}

#[test]
fn timestamp_round_trip_keeps_the_milliseconds() {
    for millis in [0u64, 1, 999, 1_000, 59_999, 60_000, 3_599_999, 3_600_000, 5_025_678, 360_000_000, u64::MAX] {
        let timestamp = VttTimestamp::from_millis(millis);
        let written = timestamp.to_string();
        let read = VttTimestamp::from_str(&written).unwrap();
        assert_eq!(read, timestamp);
        assert_eq!(read.as_millis(), millis as u128);
        assert_eq!(read.to_string(), written);
    }
}

#[test]
fn timestamp_minutes_and_seconds_may_exceed_fifty_nine() {
    let timestamp = VttTimestamp::from_str("90:75.000").unwrap();
    assert_eq!(timestamp.as_millis(), 90 * 60_000 + 75 * 1_000);
    assert_eq!(timestamp.to_string(), "01:31:15.000");
}

#[test]
fn short_fraction_is_filled_with_zeros_on_the_right() {
    assert_eq!(parse_seconds_ms("7.5").unwrap(), (7, 500));
    assert_eq!(parse_seconds_ms("7.05").unwrap(), (7, 50));
    assert_eq!(parse_seconds_ms("7.005").unwrap(), (7, 5));
    assert_eq!(parse_seconds_ms("7.").unwrap(), (7, 0));
    assert_eq!(VttTimestamp::from_str("00:01.5").unwrap().as_millis(), 1_500);
}

#[test]
fn long_fraction_is_taken_as_it_stands() {
    assert_eq!(parse_seconds_ms("7.1234").unwrap(), (7, 1234));
    assert_eq!(VttTimestamp::from_str("00:01.1234").unwrap().as_millis(), 2_234);
}

#[test]
fn seconds_without_fraction() {
    assert_eq!(parse_seconds_ms("45").unwrap(), (45, 0));
    assert_eq!(parse_seconds_ms("+45").unwrap(), (45, 0));
}

#[test]
fn seconds_that_are_no_number() {
    assert_eq!(parse_seconds_ms("x.000"), Err(VttParseError::InvalidSeconds));
    assert_eq!(parse_seconds_ms(""), Err(VttParseError::InvalidSeconds));
    assert_eq!(parse_seconds_ms(".5"), Err(VttParseError::InvalidSeconds));
    assert_eq!(parse_seconds_ms("-1"), Err(VttParseError::InvalidSeconds));
    assert_eq!(parse_seconds_ms("18446744073709551616"), Err(VttParseError::InvalidSeconds));
}

#[test]
fn fraction_that_is_no_number() {
    assert_eq!(parse_seconds_ms("1.x"), Err(VttParseError::InvalidMilliseconds));
    assert_eq!(parse_seconds_ms("1.2.3"), Err(VttParseError::InvalidMilliseconds));
    assert_eq!(parse_seconds_ms("1.00a"), Err(VttParseError::InvalidMilliseconds));
}

#[test]
fn timestamp_with_wrong_number_of_parts() {
    assert_eq!(VttTimestamp::from_str(""), Err(VttParseError::InvalidFormat));
    assert_eq!(VttTimestamp::from_str("12"), Err(VttParseError::InvalidFormat));
    assert_eq!(VttTimestamp::from_str("12.345"), Err(VttParseError::InvalidFormat));
    assert_eq!(VttTimestamp::from_str("1:2:3:4"), Err(VttParseError::InvalidFormat));
}

#[test]
fn timestamp_names_the_part_that_failed() {
    assert_eq!(VttTimestamp::from_str("xx:00:00.000"), Err(VttParseError::InvalidHours));
    assert_eq!(VttTimestamp::from_str(":00:00.000"), Err(VttParseError::InvalidHours));
    assert_eq!(VttTimestamp::from_str("00:xx:00.000"), Err(VttParseError::InvalidMinutes));
    assert_eq!(VttTimestamp::from_str("xx:00.000"), Err(VttParseError::InvalidMinutes));
    assert_eq!(VttTimestamp::from_str("00:00:xx.000"), Err(VttParseError::InvalidSeconds));
    assert_eq!(VttTimestamp::from_str("00:00:00.xxx"), Err(VttParseError::InvalidMilliseconds));
    assert_eq!(VttTimestamp::from_str("00:00.xxx"), Err(VttParseError::InvalidMilliseconds));
}

#[test]
fn timestamp_first_fault_decides() {
    assert_eq!(VttTimestamp::from_str("xx:yy:zz"), Err(VttParseError::InvalidHours));
    assert_eq!(VttTimestamp::from_str("00:yy:zz"), Err(VttParseError::InvalidMinutes));
    assert_eq!(VttTimestamp::from_str("00:00:zz.ww"), Err(VttParseError::InvalidSeconds));
}

#[test]
fn timestamp_does_not_take_whitespace() {
    assert_eq!(VttTimestamp::from_str(" 00:00:01.000"), Err(VttParseError::InvalidHours));
    assert_eq!(VttTimestamp::from_str("00:00:01.000 "), Err(VttParseError::InvalidMilliseconds));
}

#[test]
fn timestamp_hours_have_no_limit_on_digits() {
    let timestamp = VttTimestamp::from_str("000000000000000000000000000001:00:00.000").unwrap();
    assert_eq!(timestamp.as_millis(), 3_600_000);
}

#[test]
fn timestamp_range_ends_with_the_longest_duration() {
    let latest = VttTimestamp::new(Duration::MAX);
    assert_eq!(latest.as_millis(), u64::MAX as u128 * 1_000 + 999);
    assert_eq!(latest.as_duration(), Duration::new(u64::MAX, 999_000_000));
    let written = latest.to_string();
    assert_eq!(written, "5124095576030431:00:15.999");
    assert_eq!(VttTimestamp::from_str(&written).unwrap(), latest);
    assert_eq!(
        VttTimestamp::from_str("5124095576030431:00:16.000"),
        Err(VttParseError::InvalidFormat)
    );
    assert_eq!(
        VttTimestamp::from_str("18446744073709551615:00:00.000"),
        Err(VttParseError::InvalidFormat)
    );
    assert_eq!(
        VttTimestamp::from_str("18446744073709551616:00:00.000"),
        Err(VttParseError::InvalidHours)
    );
}

#[test]
fn timestamp_drops_what_is_less_than_a_millisecond() {
    let timestamp = VttTimestamp::new(Duration::new(1, 2_999_999));
    assert_eq!(timestamp.as_millis(), 1_002);
    assert_eq!(timestamp.as_duration(), Duration::from_millis(1_002));
}

#[test]
fn duration_is_kept_to_the_millisecond() {
    for millis in [0u64, 1, 1_500, 86_400_000, u64::MAX] {
        let duration = Duration::from_millis(millis);
        assert_eq!(VttTimestamp::new(duration).as_duration(), duration);
        assert_eq!(VttTimestamp::new(duration), VttTimestamp::from_millis(millis));
    }
}

#[test]
fn error_messages() {
    assert_eq!(VttParseError::InvalidFormat.to_string(), "Invalid format");
    assert_eq!(VttParseError::InvalidHours.to_string(), "Invalid hours format");
    assert_eq!(VttParseError::InvalidMinutes.to_string(), "Invalid minutes format");
    assert_eq!(VttParseError::InvalidSeconds.to_string(), "Invalid seconds format");
    assert_eq!(VttParseError::InvalidMilliseconds.to_string(), "Invalid milliseconds format");
    assert_eq!(
        VttParseError::InvalidSetting("size".to_string()).to_string(),
        "Invalid setting: size"
    );
    assert_eq!(VttParseError::MissingHeader.to_string(), "Missing WEBVTT header");
    assert_eq!(
        VttParseError::InvalidMetadataLine("no colon".to_string()).to_string(),
        "Invalid metadata line: no colon"
    );
}
