use std::time::Duration;
use vtt::{AlignSetting, LineSetting, VttCue, VttParseError, VttSettings, VttTimestamp};

#[test]
fn test_parse_simple_cue() {
    let cue_str = "00:01:02.000 --> 00:03:04.000\nHello, world!";
    let cue = VttCue::from_str(cue_str).unwrap();

    assert_eq!(cue.start.as_duration(), Duration::from_secs(62));
    assert_eq!(cue.end.as_duration(), Duration::from_secs(184));
    assert_eq!(cue.payload, "Hello, world!");
}

#[test]
fn test_parse_cue_with_settings() {
    let cue_str = "00:00:00.000 --> 00:00:05.000 line:90% position:50% align:middle\nSubtitle text";
    let cue = VttCue::from_str(cue_str).unwrap();

    assert!(cue.settings.is_some());
    let settings = cue.settings.unwrap();
    assert_eq!(settings.line, Some(LineSetting::Percentage(90)));
    assert_eq!(settings.position, Some(50));
    assert_eq!(settings.align, Some(AlignSetting::Middle));
}

#[test]
fn test_parse_cue_with_identifier() {
    let cue_str = "id1\n00:00:00.000 --> 00:00:05.000\nSubtitle text";
    let cue = VttCue::from_str(cue_str).unwrap();

    assert_eq!(cue.identifier, Some("id1".to_string()));
    assert_eq!(cue.payload, "Subtitle text");
}

#[test]
fn test_display_format() {
    let cue = VttCue {
        identifier: None,
        start: VttTimestamp::new(Duration::from_secs(1)),
        end: VttTimestamp::new(Duration::from_secs(5)),
        settings: None,
        payload: "Test".to_string(),
    };

    let expected = "00:00:01.000 --> 00:00:05.000\nTest";
    assert_eq!(cue.to_string(), expected);
}

#[test]
fn cue_with_identifier_round_trip() {
    let cue = VttCue {
        identifier: Some("id1".to_string()),
        start: VttTimestamp::new(Duration::from_secs(0)),
        end: VttTimestamp::new(Duration::from_secs(5)),
        settings: None,
        payload: "Subtitle text".to_string(),
    };
    let written = cue.to_string();
    assert_eq!(written, "id1\n00:00:00.000 --> 00:00:05.000\nSubtitle text");
    assert_eq!(VttCue::from_str(&written), Ok(cue));
}

#[test]
fn cue_with_settings_round_trip() {
    let cue = VttCue {
        identifier: Some("1".to_string()),
        start: VttTimestamp::from_millis(1_000),
        end: VttTimestamp::from_millis(5_000),
        settings: Some(VttSettings {
            vertical: None,
            line: Some(LineSetting::Number(-2)),
            position: Some(50),
            size: None,
            align: Some(AlignSetting::End),
        }),
        payload: "Hello,\nworld!".to_string(),
    };
    let written = cue.to_string();
    assert_eq!(
        written,
        "1\n00:00:01.000 --> 00:00:05.000 line:-2 position:50% align:end\nHello,\nworld!"
    );
    assert_eq!(VttCue::from_str(&written), Ok(cue));
}

#[test]
fn cue_without_settings_has_none() {
    let cue = VttCue::from_str("00:01.000 --> 00:02.000\nx").unwrap();
    assert_eq!(cue.settings, None);
    assert_eq!(cue.identifier, None);
    let cue = VttCue::from_str("00:01.000 --> 00:02.000   \nx").unwrap();
    assert_eq!(cue.settings, None);
}

#[test]
fn cue_settings_that_specify_nothing_are_not_written() {
    let cue = VttCue {
        identifier: None,
        start: VttTimestamp::from_millis(1),
        end: VttTimestamp::from_millis(2),
        settings: Some(VttSettings::default()),
        payload: "x".to_string(),
    };
    assert_eq!(cue.to_string(), "00:00:00.001 --> 00:00:00.002\nx");
}

#[test]
fn cue_payload_keeps_its_lines_and_loses_the_whitespace_around_it() {
    let cue = VttCue::from_str("00:01.000 --> 00:02.000\n  first\n  second  \nthird \n").unwrap();
    assert_eq!(cue.payload, "first\n  second  \nthird");
    let cue = VttCue::from_str("00:01.000 --> 00:02.000\n\n\nfirst\n\nsecond\n\n").unwrap();
    assert_eq!(cue.payload, "first\n\nsecond");
    let cue = VttCue::from_str("00:01.000 --> 00:02.000\r\nfirst\r\nsecond\r\n").unwrap();
    assert_eq!(cue.payload, "first\nsecond");
}

#[test]
fn cue_payload_may_be_empty() {
    let cue = VttCue::from_str("00:01.000 --> 00:02.000").unwrap();
    assert_eq!(cue.payload, "");
    assert_eq!(cue.to_string(), "00:00:01.000 --> 00:00:02.000\n");
    assert_eq!(VttCue::from_str(&cue.to_string()), Ok(cue));
}

#[test]
fn cue_payload_is_written_without_the_whitespace_around_it() {
    let cue = VttCue {
        identifier: None,
        start: VttTimestamp::from_millis(1_000),
        end: VttTimestamp::from_millis(2_000),
        settings: None,
        payload: " \n Test \n ".to_string(),
    };
    assert_eq!(cue.to_string(), "00:00:01.000 --> 00:00:02.000\nTest");
}

#[test]
fn cue_times_take_whitespace_around_them() {
    let cue = VttCue::from_str("  00:01.000   -->\t00:02.000  size:10%  align:left \nx").unwrap();
    assert_eq!(cue.start, VttTimestamp::from_millis(1_000));
    assert_eq!(cue.end, VttTimestamp::from_millis(2_000));
    let settings = cue.settings.unwrap();
    assert_eq!(settings.size, Some(10));
    assert_eq!(settings.align, Some(AlignSetting::Left));
}

#[test]
fn cue_times_need_no_whitespace_around_the_arrow() {
    let cue = VttCue::from_str("00:01.000-->00:02.000\nx").unwrap();
    assert_eq!(cue.start, VttTimestamp::from_millis(1_000));
    assert_eq!(cue.end, VttTimestamp::from_millis(2_000));
}

#[test]
fn cue_end_may_come_before_start() {
    let cue = VttCue::from_str("00:05.000 --> 00:01.000\nx").unwrap();
    assert_eq!(cue.start, VttTimestamp::from_millis(5_000));
    assert_eq!(cue.end, VttTimestamp::from_millis(1_000));
}

#[test]
fn cue_identifier_is_kept_as_it_stands() {
    let cue = VttCue::from_str("  my cue \n00:01.000 --> 00:02.000\nx").unwrap();
    assert_eq!(cue.identifier, Some("  my cue ".to_string()));
    let cue = VttCue::from_str("\n00:01.000 --> 00:02.000\nx").unwrap();
    assert_eq!(cue.identifier, Some("".to_string()));
}

#[test]
fn cue_without_timing_line() {
    assert_eq!(VttCue::from_str(""), Err(VttParseError::InvalidFormat));
    assert_eq!(VttCue::from_str("id1"), Err(VttParseError::InvalidFormat));
    assert_eq!(VttCue::from_str("id1\n"), Err(VttParseError::InvalidFormat));
    assert_eq!(VttCue::from_str("id1\ntext"), Err(VttParseError::InvalidFormat));
    assert_eq!(VttCue::from_str("id1\nid2\n00:01.000 --> 00:02.000"), Err(VttParseError::InvalidFormat));
}

#[test]
fn cue_with_wrong_number_of_arrows() {
    assert_eq!(
        VttCue::from_str("00:01.000 --> 00:02.000 --> 00:03.000\nx"),
        Err(VttParseError::InvalidFormat)
    );
    assert_eq!(VttCue::from_str("00:01.000 -->\nx"), Err(VttParseError::InvalidFormat));
    assert_eq!(VttCue::from_str("00:01.000 -->   \nx"), Err(VttParseError::InvalidFormat));
}

#[test]
fn cue_faults_of_times_and_settings_come_through() {
    assert_eq!(VttCue::from_str("--> 00:02.000\nx"), Err(VttParseError::InvalidFormat));
    assert_eq!(VttCue::from_str("aa:01.000 --> 00:02.000\nx"), Err(VttParseError::InvalidMinutes));
    assert_eq!(VttCue::from_str("00:01.000 --> 00:bb.000\nx"), Err(VttParseError::InvalidSeconds));
    assert_eq!(VttCue::from_str("0:0:1.000 --> h:0:2.000\nx"), Err(VttParseError::InvalidHours));
    assert_eq!(VttCue::from_str("00:01.000 --> 00:02.cc\nx"), Err(VttParseError::InvalidMilliseconds));
    assert_eq!(
        VttCue::from_str("00:01.000 --> 00:02.000 foo:bar\nx"),
        Err(VttParseError::InvalidSetting("Unknown setting: foo".to_string()))
    );
    assert_eq!(
        VttCue::from_str("aa:01.000 --> 00:bb.000 foo:bar\nx"),
        Err(VttParseError::InvalidMinutes)
    );
}

#[test]
fn cue_is_stable_after_one_pass() {
    let texts = [
        "00:01.000 --> 00:02.000",
        "  \n1:2 -->   3:4.5   align:end   line:-1  \n  text  \n\n more \n\n",
        "id\r\n00:01.000 --> 00:02.000 size:1% size:2%\r\na\r\n \r\nb\r\n",
        "\n00:01.000-->00:02.000\n",
    ];
    for text in texts {
        let read = VttCue::from_str(text).unwrap();
        let once = read.to_string();
        assert_eq!(VttCue::from_str(&once), Ok(read));
    }
}
