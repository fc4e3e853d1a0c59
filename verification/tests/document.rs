use std::time::Duration;
use vtt::{VttCue, VttHeader, VttMetadata, VttParseError, VttTimestamp, WebVtt};

#[test]
fn test_parse_basic_vtt() {
    let content = "WEBVTT

00:01:02.000 --> 00:03:04.000
Hello, world!

00:03:05.000 --> 00:03:08.000
Second subtitle";

    let vtt = WebVtt::from_str(content).unwrap();
    assert_eq!(vtt.cues.len(), 2);
    assert_eq!(vtt.cues[0].payload, "Hello, world!");
    assert_eq!(vtt.cues[1].payload, "Second subtitle");
}

#[test]
fn test_parse_vtt_with_metadata() {
    let content = "WEBVTT Sample File
Region: id=region1 width=40%
Style: color:red

00:01:02.000 --> 00:03:04.000
First subtitle";

    let vtt = WebVtt::from_str(content).unwrap();
    assert_eq!(vtt.header.description, Some("Sample File".to_string()));
    assert_eq!(
        vtt.header.metadata.get("Region").unwrap(),
        "id=region1 width=40%"
    );
    assert_eq!(vtt.header.metadata.get("Style").unwrap(), "color:red");
    assert_eq!(vtt.cues.len(), 1);
}

#[test]
fn test_write_to_string() {
    let mut vtt = WebVtt::new();
    vtt.header.description = Some("Test".to_string());
    vtt.add_metadata("Language", "en");

    let cue = VttCue {
        identifier: None,
        start: VttTimestamp::new(Duration::from_secs(1)),
        end: VttTimestamp::new(Duration::from_secs(5)),
        settings: None,
        payload: "Test".to_string(),
    };

    let cue2 = VttCue {
        identifier: None,
        start: VttTimestamp::new(Duration::from_secs(7)),
        end: VttTimestamp::new(Duration::from_secs(10)),
        settings: None,
        payload: "Second Line should serialize with a newline".to_string(),
    };

    vtt.add_cue(cue);
    vtt.add_cue(cue2);

    let expected = "WEBVTT Test
Language: en

00:00:01.000 --> 00:00:05.000
Test

00:00:07.000 --> 00:00:10.000
Second Line should serialize with a newline";

    assert_eq!(vtt.to_string(), expected);
}

#[test]
fn document_cues_keep_their_order() {
    let content = "WEBVTT\n\n00:01:02.000 --> 00:03:04.000\nHello, world!\n\n00:03:05.000 --> 00:03:08.000\nSecond subtitle";
    let vtt = WebVtt::from_str(content).unwrap();
    assert_eq!(vtt.cues.len(), 2);
    assert_eq!(vtt.cues[0].payload, "Hello, world!");
    assert_eq!(vtt.cues[0].start, VttTimestamp::from_millis(62_000));
    assert_eq!(vtt.cues[0].end, VttTimestamp::from_millis(184_000));
    assert_eq!(vtt.cues[1].payload, "Second subtitle");
    assert_eq!(vtt.cues[1].start, VttTimestamp::from_millis(185_000));
    assert_eq!(vtt.header.description, None);
    assert!(vtt.header.metadata.is_empty());
}

#[test]
fn document_order_is_not_time_order() {
    let vtt = WebVtt::from_str("WEBVTT\n\n00:09.000 --> 00:10.000\nlate\n\n00:01.000 --> 00:02.000\nearly").unwrap();
    assert_eq!(vtt.cues[0].payload, "late");
    assert_eq!(vtt.cues[1].payload, "early");
}

#[test]
fn document_without_marker() {
    assert_eq!(WebVtt::from_str(""), Err(VttParseError::MissingHeader));
    assert_eq!(WebVtt::from_str("\n"), Err(VttParseError::MissingHeader));
    assert_eq!(WebVtt::from_str("\nWEBVTT\n"), Err(VttParseError::MissingHeader));
    assert_eq!(WebVtt::from_str("webvtt\n"), Err(VttParseError::MissingHeader));
    assert_eq!(WebVtt::from_str("WEBVT"), Err(VttParseError::MissingHeader));
    assert_eq!(
        WebVtt::from_str("INVALID HEADER\n\n00:01:02.000 --> 00:03:04.000\nHello, world!"),
        Err(VttParseError::MissingHeader)
    );
    assert_eq!(
        WebVtt::from_str("00:01:02.000 --> 00:03:04.000\nHello, world!"),
        Err(VttParseError::MissingHeader)
    );
    assert_eq!(WebVtt::from_str("no marker\nbad metadata\n\nbad cue"), Err(VttParseError::MissingHeader));
}

#[test]
fn document_marker_starts_the_first_line() {
    assert_eq!(WebVtt::from_str(" WEBVTT"), Err(VttParseError::MissingHeader));
    assert_eq!(WebVtt::from_str("  WEBVTT  \n"), Err(VttParseError::MissingHeader));
    assert_eq!(WebVtt::from_str("\tWEBVTT Sample\n\n"), Err(VttParseError::MissingHeader));
    assert_eq!(WebVtt::from_str("\u{feff}WEBVTT\n"), Err(VttParseError::MissingHeader));
    assert_eq!(
        WebVtt::from_str(" WEBVTT\n\n00:01.000 --> 00:02.000\na"),
        Err(VttParseError::MissingHeader)
    );
    assert_eq!(WebVtt::from_str(" WEBVTT\nno colon\n\nnot a cue"), Err(VttParseError::MissingHeader));
}

#[test]
fn document_marker_with_nothing_but_whitespace_after_it() {
    for text in ["WEBVTT", "WEBVTT ", "WEBVTT  \t \n", "WEBVTT\r\n", "WEBVTT \u{3000}\n\n"] {
        let vtt = WebVtt::from_str(text).unwrap();
        assert_eq!(vtt.header.description, None);
        assert!(vtt.header.metadata.is_empty());
        assert_eq!(vtt.cues.len(), 0);
        assert_eq!(vtt.to_string(), "WEBVTT\n\n");
    }
}

#[test]
fn document_description() {
    assert_eq!(WebVtt::from_str("WEBVTT").unwrap().header.description, None);
    assert_eq!(
        WebVtt::from_str("WEBVTT   Sample  File  ").unwrap().header.description,
        Some("Sample  File".to_string())
    );
    assert_eq!(
        WebVtt::from_str("WEBVTT- x").unwrap().header.description,
        Some("- x".to_string())
    );
}

#[test]
fn document_metadata_lines() {
    let vtt = WebVtt::from_str("WEBVTT\n  Kind : captions  \nLanguage:en\nEmpty:\n: no key\nA:b:c\n").unwrap();
    let metadata = &vtt.header.metadata;
    assert_eq!(metadata.len(), 5);
    assert_eq!(metadata.get("Kind").unwrap(), "captions");
    assert_eq!(metadata.get("Language").unwrap(), "en");
    assert_eq!(metadata.get("Empty").unwrap(), "");
    assert_eq!(metadata.get("").unwrap(), "no key");
    assert_eq!(metadata.get("A").unwrap(), "b:c");
    assert_eq!(metadata.get("kind"), None);
}

#[test]
fn document_metadata_line_without_colon() {
    assert_eq!(
        WebVtt::from_str("WEBVTT\nLanguage: en\n  no colon here \nKind: captions\n"),
        Err(VttParseError::InvalidMetadataLine("no colon here".to_string()))
    );
    assert_eq!(
        WebVtt::from_str("WEBVTT\nfirst\nsecond\n"),
        Err(VttParseError::InvalidMetadataLine("first".to_string()))
    );
}

#[test]
fn document_header_fault_comes_before_cue_fault() {
    assert_eq!(
        WebVtt::from_str("WEBVTT\nno colon\n\nnot a cue"),
        Err(VttParseError::InvalidMetadataLine("no colon".to_string()))
    );
}

#[test]
fn document_metadata_later_value_stands_in_the_place_of_the_first() {
    let vtt = WebVtt::from_str("WEBVTT\nA: 1\nB: 2\nA: 3\n").unwrap();
    assert_eq!(vtt.header.metadata.len(), 2);
    assert_eq!(vtt.header.metadata.get("A").unwrap(), "3");
    assert_eq!(vtt.to_string(), "WEBVTT\nA: 3\nB: 2\n\n");
}

#[test]
fn document_metadata_is_written_in_the_order_of_first_insertion() {
    let mut vtt = WebVtt::new();
    vtt.add_metadata("Zebra", "1");
    vtt.add_metadata("Apple", "2");
    vtt.add_metadata("Mango", "3");
    vtt.add_metadata("Apple", "4");
    assert_eq!(vtt.to_string(), "WEBVTT\nZebra: 1\nApple: 4\nMango: 3\n\n");
    let entries = vtt.header.metadata.entries();
    assert_eq!(entries.len(), 3);
    assert_eq!(entries[1], ("Apple".to_string(), "4".to_string()));
}

#[test]
fn metadata_insert_and_get() {
    let mut metadata = VttMetadata::new();
    assert!(metadata.is_empty());
    assert_eq!(metadata.get("Language"), None);
    metadata.insert("Language".to_string(), "en-US".to_string());
    assert_eq!(metadata.len(), 1);
    assert_eq!(metadata.get("Language").unwrap(), "en-US");
    metadata.insert("Language".to_string(), "fr".to_string());
    assert_eq!(metadata.len(), 1);
    assert_eq!(metadata.get("Language").unwrap(), "fr");
    let copy = metadata.clone();
    assert_eq!(copy, metadata);
    assert_eq!(VttMetadata::default(), VttMetadata::new());
}

#[test]
fn header_default_is_empty() {
    let header = VttHeader::default();
    assert_eq!(header.description, None);
    assert!(header.metadata.is_empty());
    assert_eq!(WebVtt::default(), WebVtt::new());
    assert_eq!(WebVtt::new().to_string(), "WEBVTT\n\n");
}

#[test]
fn document_blank_lines_between_cues() {
    let vtt = WebVtt::from_str("WEBVTT\n\n\n  \n00:01.000 --> 00:02.000\na\n\n \t \n\n00:03.000 --> 00:04.000\nb\n\n\n").unwrap();
    assert_eq!(vtt.cues.len(), 2);
    assert_eq!(vtt.cues[0].payload, "a");
    assert_eq!(vtt.cues[1].payload, "b");
}

#[test]
fn document_last_cue_needs_no_blank_line_after_it() {
    let with = WebVtt::from_str("WEBVTT\n\n00:01.000 --> 00:02.000\na\n\n").unwrap();
    let without = WebVtt::from_str("WEBVTT\n\n00:01.000 --> 00:02.000\na").unwrap();
    assert_eq!(with, without);
    assert_eq!(with.cues.len(), 1);
}

#[test]
fn document_with_carriage_returns() {
    let vtt = WebVtt::from_str("WEBVTT Sample\r\nLanguage: en\r\n\r\nid1\r\n00:01.000 --> 00:02.000\r\nfirst\r\nsecond\r\n\r\n00:03.000 --> 00:04.000\r\nb\r\n").unwrap();
    assert_eq!(vtt.header.description, Some("Sample".to_string()));
    assert_eq!(vtt.header.metadata.get("Language").unwrap(), "en");
    assert_eq!(vtt.cues.len(), 2);
    assert_eq!(vtt.cues[0].identifier, Some("id1".to_string()));
    assert_eq!(vtt.cues[0].payload, "first\nsecond");
    assert_eq!(vtt.cues[1].payload, "b");
}

#[test]
fn document_cue_fault_fails_the_document() {
    assert_eq!(
        WebVtt::from_str("WEBVTT\n\n00:01.000 --> 00:02.000\na\n\nnot a cue\n\n00:03.000 --> xx:04.000\nb"),
        Err(VttParseError::InvalidFormat)
    );
    assert_eq!(
        WebVtt::from_str("WEBVTT\n\n00:01.000 --> 00:02.000\na\n\n00:03.000 --> xx:04.000\nb\n\nnot a cue"),
        Err(VttParseError::InvalidMinutes)
    );
    assert_eq!(
        WebVtt::from_str("WEBVTT\n\n00:01.000 --> 00:02.000 size:40\na"),
        Err(VttParseError::InvalidSetting("size".to_string()))
    );
}

#[test]
fn document_cues_directly_after_the_first_line_are_read_as_metadata() {
    let vtt = WebVtt::from_str("WEBVTT\n00:01.000 --> 00:02.000\n").unwrap();
    assert_eq!(vtt.cues.len(), 0);
    assert_eq!(vtt.header.metadata.get("00").unwrap(), "01.000 --> 00:02.000");
}

#[test]
fn document_round_trip() {
    let content = "WEBVTT Sample File\nRegion: id=region1 width=40%\nStyle: color:red\n\nintro\n00:01:02.000 --> 00:03:04.000 line:90% align:start\nFirst subtitle\non two lines\n\n00:03:05.000 --> 00:03:08.000\nSecond subtitle";
    let vtt = WebVtt::from_str(content).unwrap();
    assert_eq!(vtt.to_string(), content);
    assert_eq!(WebVtt::from_str(&vtt.to_string()), Ok(vtt));
}

#[test]
fn document_is_stable_after_one_pass() {
    let texts = [
        "WEBVTT",
        "WEBVTT\n",
        "WEBVTT   a  description \nKey : value \n B:c:d\nKey:again\n\n\n\n  id \n1:2 -->   3:4.5   align:end   line:-1  \n  text  \n more \n\n\n5:6-->7:8\n\n9:10 --> 11:12\nlast\n\n\n",
        "WEBVTT\r\n\r\n00:01.000 --> 00:02.000\r\na\r\nb\r\n\r\n",
        "WEBVTT\n\n00:01.000 --> 00:02.000 vertical:rl vertical:lr\n",
    ];
    for text in texts {
        let once = WebVtt::from_str(text).unwrap().to_string();
        let twice = WebVtt::from_str(&once).unwrap().to_string();
        assert_eq!(once, twice);
        assert_eq!(WebVtt::from_str(&once), WebVtt::from_str(text));
    }
}

#[test]
fn document_with_empty_payloads_stays_as_it_is() {
    let text = "WEBVTT\n\n00:00:01.000 --> 00:00:02.000\n\n\n00:00:03.000 --> 00:00:04.000\n";
    let vtt = WebVtt::from_str(text).unwrap();
    assert_eq!(vtt.cues.len(), 2);
    assert_eq!(vtt.cues[0].payload, "");
    assert_eq!(vtt.to_string(), text);
}

#[test]
fn add_cue_appends() {
    let mut vtt = WebVtt::new();
    let cue = VttCue::from_str("00:01.000 --> 00:02.000\na").unwrap();
    let other = VttCue::from_str("00:03.000 --> 00:04.000\nb").unwrap();
    vtt.add_cue(cue.clone());
    vtt.add_cue(other.clone());
    assert_eq!(vtt.cues, vec![cue, other]);
    assert_eq!(vtt.header, VttHeader::default());
}

#[test]
fn header_by_itself() {
    let mut header = VttHeader::default();
    header.description = Some("Sample File".to_string());
    header.metadata.insert("Language".to_string(), "en-US".to_string());
    header.metadata.insert("Kind".to_string(), "captions".to_string());
    let written = header.to_text();
    assert_eq!(written, "Sample File\nLanguage: en-US\nKind: captions");
    assert_eq!(VttHeader::from_text(&written), Ok(header));
}

#[test]
fn header_by_itself_without_description() {
    assert_eq!(VttHeader::default().to_text(), "");
    assert_eq!(VttHeader::from_text(""), Ok(VttHeader::default()));
    let mut header = VttHeader::default();
    header.metadata.insert("A".to_string(), "b".to_string());
    assert_eq!(header.to_text(), "\nA: b");
    let read = VttHeader::from_text("\nA: b").unwrap();
    assert_eq!(read.description, Some("".to_string()));
    assert_eq!(read.metadata, header.metadata);
}

#[test]
fn header_by_itself_with_a_line_that_is_no_entry() {
    assert_eq!(
        VttHeader::from_text("Sample\nLanguage: en\n\nKind: captions"),
        Err(VttParseError::InvalidMetadataLine("".to_string()))
    );
    assert_eq!(
        VttHeader::from_text("Sample\n no colon "),
        Err(VttParseError::InvalidMetadataLine("no colon".to_string()))
    );
}

#[test]
fn metadata_order_makes_no_difference_to_equality() {
    let mut first = VttMetadata::new();
    first.insert("A".to_string(), "1".to_string());
    first.insert("B".to_string(), "2".to_string());
    let mut second = VttMetadata::new();
    second.insert("B".to_string(), "2".to_string());
    second.insert("A".to_string(), "1".to_string());
    assert_eq!(first, second);
    assert_eq!(second, first);
    second.insert("A".to_string(), "3".to_string());
    assert_ne!(first, second);
    let mut third = VttMetadata::new();
    third.insert("A".to_string(), "1".to_string());
    assert_ne!(first, third);
    assert_ne!(third, first);
    third.insert("C".to_string(), "2".to_string());
    assert_ne!(first, third);
}

#[test]
fn prelude_brings_the_types() {
    let mut document = vtt::prelude::WebVtt::new();
    document.add_cue(vtt::prelude::VttCue::from_str("00:01.000 --> 00:02.000\na").unwrap());
    assert_eq!(document.cues.len(), 1);
}

#[test]
fn carriage_return_at_the_end_of_an_identifier_does_not_last() {
    let text = "WEBVTT\n\nid\r\r\r\n00:01.000 --> 00:02.000\na";
    let read = WebVtt::from_str(text).unwrap();
    assert_eq!(read.cues[0].identifier, Some("id\r".to_string()));
    let once = read.to_string();
    let again = WebVtt::from_str(&once).unwrap();
    assert_eq!(again.cues[0].identifier, Some("id".to_string()));
    assert_ne!(again.to_string(), once);
}

#[test]
fn carriage_return_at_the_end_of_a_payload_line_does_not_last() {
    let text = "WEBVTT\n\n00:01.000 --> 00:02.000\na\r\r\r\nb";
    let read = WebVtt::from_str(text).unwrap();
    assert_eq!(read.cues[0].payload, "a\r\nb");
    let once = read.to_string();
    let again = WebVtt::from_str(&once).unwrap();
    assert_eq!(again.cues[0].payload, "a\nb");
    assert_ne!(again.to_string(), once);
}

#[test]
fn carriage_return_inside_a_line_stays() {
    let text = "WEBVTT a\rb\nK\rk: v\rv\n\ni\rd\n00:00:01.000 --> 00:00:02.000\nx\ry";
    let read = WebVtt::from_str(text).unwrap();
    assert_eq!(read.header.description, Some("a\rb".to_string()));
    assert_eq!(read.header.metadata.get("K\rk").unwrap(), "v\rv");
    assert_eq!(read.cues[0].identifier, Some("i\rd".to_string()));
    assert_eq!(read.cues[0].payload, "x\ry");
    assert_eq!(read.to_string(), text);
}
