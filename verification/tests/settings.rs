use vtt::{parse_settings, AlignSetting, LineSetting, VerticalSetting, VttParseError, VttSettings};

fn invalid(text: &str) -> Result<VttSettings, VttParseError> {
    Err(VttParseError::InvalidSetting(text.to_string()))
}

#[test]
fn settings_line_position_align() {
    let settings = parse_settings("line:90% position:50% align:middle").unwrap();
    assert_eq!(settings.line, Some(LineSetting::Percentage(90)));
    assert_eq!(settings.position, Some(50));
    assert_eq!(settings.align, Some(AlignSetting::Middle));
    assert_eq!(settings.vertical, None);
    assert_eq!(settings.size, None);
}

#[test]
fn settings_unknown_key_is_rejected() {
    assert_eq!(parse_settings("foo:bar"), invalid("Unknown setting: foo"));
    assert_eq!(parse_settings("line:1 foo:bar"), invalid("Unknown setting: foo"));
    assert_eq!(parse_settings(":bar"), invalid("Unknown setting: "));
    assert_eq!(parse_settings("Line:1"), invalid("Unknown setting: Line"));
}

#[test]
fn settings_word_without_colon_is_rejected() {
    assert_eq!(parse_settings("foo"), invalid("Invalid setting format: foo"));
    assert_eq!(parse_settings("align:start middle"), invalid("Invalid setting format: middle"));
}

#[test]
fn settings_values_that_the_key_does_not_allow() {
    assert_eq!(parse_settings("vertical:up"), invalid("vertical:up"));
    assert_eq!(parse_settings("vertical:"), invalid("vertical:"));
    assert_eq!(parse_settings("align:center"), invalid("align:center"));
    assert_eq!(parse_settings("line:x%"), invalid("line percentage"));
    assert_eq!(parse_settings("line:%"), invalid("line percentage"));
    assert_eq!(parse_settings("line:-1%"), invalid("line percentage"));
    assert_eq!(parse_settings("line:4294967296%"), invalid("line percentage"));
    assert_eq!(parse_settings("line:x"), invalid("line number"));
    assert_eq!(parse_settings("line:"), invalid("line number"));
    assert_eq!(parse_settings("line:2147483648"), invalid("line number"));
    assert_eq!(parse_settings("line:-2147483649"), invalid("line number"));
    assert_eq!(parse_settings("line:Auto"), invalid("line number"));
    assert_eq!(parse_settings("position:50"), invalid("position"));
    assert_eq!(parse_settings("position:x%"), invalid("position"));
    assert_eq!(parse_settings("position:"), invalid("position"));
    assert_eq!(parse_settings("size:40"), invalid("size"));
    assert_eq!(parse_settings("size:4294967296%"), invalid("size"));
}

#[test]
fn settings_first_fault_decides() {
    assert_eq!(parse_settings("size:40 foo:bar"), invalid("size"));
    assert_eq!(parse_settings("foo:bar size:40"), invalid("Unknown setting: foo"));
}

#[test]
fn settings_all_values() {
    assert_eq!(parse_settings("vertical:rl").unwrap().vertical, Some(VerticalSetting::RightToLeft));
    assert_eq!(parse_settings("vertical:lr").unwrap().vertical, Some(VerticalSetting::LeftToRight));
    assert_eq!(parse_settings("line:auto").unwrap().line, Some(LineSetting::Auto));
    assert_eq!(parse_settings("line:0%").unwrap().line, Some(LineSetting::Percentage(0)));
    assert_eq!(parse_settings("line:-5").unwrap().line, Some(LineSetting::Number(-5)));
    assert_eq!(parse_settings("line:+5").unwrap().line, Some(LineSetting::Number(5)));
    assert_eq!(parse_settings("line:7").unwrap().line, Some(LineSetting::Number(7)));
    assert_eq!(
        parse_settings("line:-2147483648").unwrap().line,
        Some(LineSetting::Number(i32::MIN))
    );
    assert_eq!(
        parse_settings("line:2147483647").unwrap().line,
        Some(LineSetting::Number(i32::MAX))
    );
    assert_eq!(parse_settings("size:4294967295%").unwrap().size, Some(u32::MAX));
    assert_eq!(parse_settings("align:start").unwrap().align, Some(AlignSetting::Start));
    assert_eq!(parse_settings("align:middle").unwrap().align, Some(AlignSetting::Middle));
    assert_eq!(parse_settings("align:end").unwrap().align, Some(AlignSetting::End));
    assert_eq!(parse_settings("align:left").unwrap().align, Some(AlignSetting::Left));
    assert_eq!(parse_settings("align:right").unwrap().align, Some(AlignSetting::Right));
}

#[test]
fn settings_value_goes_up_to_the_end_of_the_word() {
    assert_eq!(parse_settings("vertical:rl:x"), invalid("vertical:rl:x"));
    assert_eq!(parse_settings("align:start:1"), invalid("align:start:1"));
}

#[test]
fn settings_later_value_stands() {
    let settings = parse_settings("align:start position:10% align:end position:20%").unwrap();
    assert_eq!(settings.align, Some(AlignSetting::End));
    assert_eq!(settings.position, Some(20));
}

#[test]
fn settings_any_whitespace_separates() {
    let settings = parse_settings("  size:40%\t\talign:left \u{3000} line:auto  ").unwrap();
    assert_eq!(settings.size, Some(40));
    assert_eq!(settings.align, Some(AlignSetting::Left));
    assert_eq!(settings.line, Some(LineSetting::Auto));
}

#[test]
fn settings_nothing_specified() {
    assert_eq!(parse_settings("").unwrap(), VttSettings::default());
    assert_eq!(parse_settings("   ").unwrap(), VttSettings::default());
    assert_eq!(VttSettings::default().to_string(), "");
    assert!(VttSettings::default().is_empty());
    assert_eq!(VttSettings::default().vertical, None);
    assert_eq!(VttSettings::default().line, None);
    assert_eq!(VttSettings::default().position, None);
    assert_eq!(VttSettings::default().size, None);
    assert_eq!(VttSettings::default().align, None);
}

#[test]
fn settings_are_written_in_fixed_order() {
    let settings = parse_settings("align:middle size:40% position:50% line:90% vertical:lr").unwrap();
    assert_eq!(settings.to_string(), "vertical:lr line:90% position:50% size:40% align:middle");
    assert!(!settings.is_empty());
}

#[test]
fn settings_absent_fields_are_left_out() {
    let settings = VttSettings {
        vertical: None,
        line: Some(LineSetting::Number(-3)),
        position: None,
        size: Some(0),
        align: None,
    };
    assert_eq!(settings.to_string(), "line:-3 size:0%");
}

#[test]
fn setting_values_as_words() {
    assert_eq!(VerticalSetting::RightToLeft.to_string(), "rl");
    assert_eq!(VerticalSetting::LeftToRight.to_string(), "lr");
    assert_eq!(LineSetting::Percentage(90).to_string(), "90%");
    assert_eq!(LineSetting::Number(-5).to_string(), "-5");
    assert_eq!(LineSetting::Number(i32::MIN).to_string(), "-2147483648");
    assert_eq!(LineSetting::Number(12).to_string(), "12");
    assert_eq!(LineSetting::Auto.to_string(), "auto");
    assert_eq!(AlignSetting::Start.to_string(), "start");
    assert_eq!(AlignSetting::Middle.to_string(), "middle");
    assert_eq!(AlignSetting::End.to_string(), "end");
    assert_eq!(AlignSetting::Left.to_string(), "left");
    assert_eq!(AlignSetting::Right.to_string(), "right");
}

#[test]
fn settings_round_trip() {
    let verticals = [None, Some(VerticalSetting::RightToLeft), Some(VerticalSetting::LeftToRight)];
    let lines = [
        None,
        Some(LineSetting::Auto),
        Some(LineSetting::Percentage(0)),
        Some(LineSetting::Percentage(100)),
        Some(LineSetting::Percentage(u32::MAX)),
        Some(LineSetting::Number(0)),
        Some(LineSetting::Number(-1)),
        Some(LineSetting::Number(i32::MIN)),
        Some(LineSetting::Number(i32::MAX)),
    ];
    let numbers = [None, Some(0), Some(50), Some(u32::MAX)];
    let aligns = [
        None,
        Some(AlignSetting::Start),
        Some(AlignSetting::Middle),
        Some(AlignSetting::End),
        Some(AlignSetting::Left),
        Some(AlignSetting::Right),
    ];
    for vertical in verticals {
        for line in lines {
            for position in numbers {
                for size in numbers {
                    for align in aligns {
                        let settings = VttSettings { vertical, line, position, size, align };
                        assert_eq!(parse_settings(&settings.to_string()), Ok(settings));
                    }
                }
            }
        }
    }
}

// What is not understood is a fault and fails the whole line. The other way
// to treat it, to pass over it and keep the rest, is not taken: each of these
// lines would then give the settings of its good words.
#[test]
fn settings_nothing_is_passed_over() {
    assert!(parse_settings("align:start foo:bar").is_err());
    assert!(parse_settings("align:start foo").is_err());
    assert!(parse_settings("align:start vertical:up").is_err());
    assert!(parse_settings("align:start align:centre").is_err());
    assert!(parse_settings("align:start position:50").is_err());
    assert!(parse_settings("align:start size:50").is_err());
    assert!(parse_settings("align:start line:5x").is_err());
    assert!(parse_settings("align:start line:x%").is_err());
    assert_eq!(parse_settings("align:start").unwrap().align, Some(AlignSetting::Start));
}
