use std::io::{BufReader, Cursor, Read};
use std::time::Duration;
use vtt::{
    parse_settings, AlignSetting, LineSetting, VerticalSetting, VttCue, VttHeader, VttParseError,
    VttSettings, VttTimestamp, WebVtt,
};

/// Reads all of `reader` and then the document in it, as a caller with a
/// stream does.
fn from_reader<R: Read>(reader: R) -> Result<WebVtt, VttParseError> {
    let mut buffer = String::new();
    BufReader::new(reader)
        .read_to_string(&mut buffer)
        .map_err(|_| VttParseError::InvalidFormat)?;
    WebVtt::from_str(&buffer)
}

/// The JSON of the text, and the text of that JSON: the way of a value that
/// is kept as its text in a JSON document.
fn through_json(text: &str) -> String {
    let serialized = serde_json::to_string(text).unwrap();
    serde_json::from_str(&serialized).unwrap()
}

#[test]
fn test_from_reader() {
    let data = b"WEBVTT

00:01:02.000 --> 00:03:04.000
Hello, world!

00:03:05.000 --> 00:03:08.000
Second subtitle";
    let reader = Cursor::new(&data[..]);
    let vtt = from_reader(reader).unwrap();
    assert_eq!(vtt.cues.len(), 2);
    assert_eq!(vtt.cues[0].payload, "Hello, world!");
    assert_eq!(vtt.cues[1].payload, "Second subtitle");
}

#[test]
fn test_from_reader_with_invalid_data() {
    let data = b"INVALID HEADER

00:01:02.000 --> 00:03:04.000
Hello, world!";
    let reader = Cursor::new(&data[..]);
    let result = from_reader(reader);
    assert!(result.is_err());
    match result {
        Err(VttParseError::MissingHeader) => (),
        _ => panic!("Expected MissingHeader error"),
    }
}

#[test]
fn from_reader_with_bytes_that_are_no_text() {
    let data = [b'W', b'E', b'B', b'V', b'T', b'T', 0xff, 0xfe];
    assert_eq!(from_reader(Cursor::new(&data[..])), Err(VttParseError::InvalidFormat));
}

#[test]
fn test_serialize_deserialize() {
    let mut vtt = WebVtt::new();
    vtt.header.description = Some("Test File".to_string());
    vtt.header.metadata.insert("Language".to_string(), "en-US".to_string());

    let cue = VttCue {
        identifier: Some("1".to_string()),
        start: VttTimestamp::new(Duration::from_secs(1)),
        end: VttTimestamp::new(Duration::from_secs(5)),
        settings: None,
        payload: "Test subtitle".to_string(),
    };
    vtt.add_cue(cue);

    let deserialized = WebVtt::from_str(&through_json(&vtt.to_string())).unwrap();

    assert_eq!(deserialized.header.description, vtt.header.description);
    assert_eq!(deserialized.header.metadata, vtt.header.metadata);
    assert_eq!(deserialized.cues.len(), vtt.cues.len());
    assert_eq!(deserialized.cues[0].payload, "Test subtitle");
}

#[test]
fn test_vtt_settings_serde() {
    let settings = VttSettings {
        vertical: Some(VerticalSetting::LeftToRight),
        line: Some(LineSetting::Percentage(90)),
        position: Some(50),
        size: Some(40),
        align: Some(AlignSetting::Middle),
    };
    let deserialized = parse_settings(&through_json(&settings.to_string())).unwrap();
    assert_eq!(settings, deserialized);
}

#[test]
fn test_vtt_cue_serde() {
    let cue = VttCue {
        identifier: Some("1".to_string()),
        start: VttTimestamp::new(Duration::from_secs(1)),
        end: VttTimestamp::new(Duration::from_secs(5)),
        settings: Some(VttSettings {
            vertical: Some(VerticalSetting::LeftToRight),
            line: Some(LineSetting::Percentage(90)),
            position: Some(50),
            size: Some(40),
            align: Some(AlignSetting::Middle),
        }),
        payload: "Hello, world!".to_string(),
    };
    let deserialized = VttCue::from_str(&through_json(&cue.to_string())).unwrap();
    assert_eq!(cue, deserialized);
}

#[test]
fn test_vtt_header_serde() {
    let mut header = VttHeader::default();
    header.description = Some("Sample File".to_string());
    header.metadata.insert("Language".to_string(), "en-US".to_string());

    let deserialized = VttHeader::from_text(&through_json(&header.to_text())).unwrap();
    assert_eq!(header, deserialized);
}

#[test]
fn parse_reads_what_from_str_reads() {
    let timestamp: VttTimestamp = "01:23:45.678".parse().unwrap();
    assert_eq!(timestamp, VttTimestamp::from_millis(5_025_678));
    assert_eq!("1".parse::<VttTimestamp>(), Err(VttParseError::InvalidFormat));
    let cue: VttCue = "id1\n00:00.000 --> 00:05.000\nSubtitle text".parse().unwrap();
    assert_eq!(cue.identifier, Some("id1".to_string()));
    assert_eq!("id1".parse::<VttCue>(), Err(VttParseError::InvalidFormat));
    let document: WebVtt = "WEBVTT\n\n00:00.000 --> 00:05.000\nSubtitle text".parse().unwrap();
    assert_eq!(document.cues.len(), 1);
    assert_eq!("".parse::<WebVtt>(), Err(VttParseError::MissingHeader));
}
