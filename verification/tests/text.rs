use vtt::decimal::{decimal_chars, parse_i32, parse_u32, parse_u64};
use vtt::scan::{
    chars_of, equals, find, is_whitespace, join, lines, split, split_whitespace, starts_with,
    string_of, trim,
};

const SAMPLES: [&str; 24] = [
    "",
    " ",
    "\n",
    "\r",
    "\r\n",
    "a",
    " a ",
    "a\n",
    "a\r\n",
    "a\r",
    "a\r\r\n",
    "a\n\nb",
    "\na\n",
    "a\nb\r\nc\rd\n\re",
    "  two  words  ",
    "\ttabs\u{a0}and\u{3000}more\u{2028}",
    "x-->y",
    "x--->y-->",
    "-->",
    "a:b:c",
    "::",
    "caf\u{e9} \u{1f600} zo\u{eb}",
    "WEBVTT\n\n00:01.000 --> 00:02.000\nHello",
    " \u{85} \u{1680}x\u{2000}\u{200a}\u{202f}\u{205f} ",
];

fn texts(parts: &[&[char]]) -> Vec<String> {
    parts.iter().map(|p| string_of(p)).collect()
}

#[test]
fn whitespace_is_what_the_standard_library_calls_whitespace() {
    for code in 0..=0x10ffffu32 {
        if let Some(c) = char::from_u32(code) {
            assert_eq!(is_whitespace(c), c.is_whitespace(), "U+{:04X}", code);
        }
    }
}

#[test]
fn characters_of_a_string_and_back() {
    for s in SAMPLES {
        let chars = chars_of(s);
        assert_eq!(chars, s.chars().collect::<Vec<char>>());
        assert_eq!(string_of(&chars), s);
    }
}

#[test]
fn trim_as_the_standard_library_trims() {
    for s in SAMPLES {
        assert_eq!(string_of(trim(&chars_of(s))), s.trim());
    }
}

#[test]
fn lines_as_the_standard_library_finds_them() {
    for s in SAMPLES {
        let chars = chars_of(s);
        assert_eq!(texts(&lines(&chars)), s.lines().collect::<Vec<&str>>(), "{:?}", s);
    }
}

#[test]
fn words_as_the_standard_library_finds_them() {
    for s in SAMPLES {
        let chars = chars_of(s);
        assert_eq!(texts(&split_whitespace(&chars)), s.split_whitespace().collect::<Vec<&str>>());
    }
}

#[test]
fn split_and_find_as_the_standard_library_does() {
    for s in SAMPLES {
        for p in ["-->", ":", "\n", "."] {
            let chars = chars_of(s);
            let pattern = chars_of(p);
            assert_eq!(texts(&split(&chars, &pattern)), s.split(p).collect::<Vec<&str>>());
            let found = find(&chars, &pattern);
            let wanted = s.find(p).map(|at| s[..at].chars().count());
            assert_eq!(found, wanted);
            assert_eq!(starts_with(&chars, &pattern), s.starts_with(p));
        }
    }
}

#[test]
fn split_with_an_empty_separator_leaves_the_text_whole() {
    let chars = chars_of("abc");
    assert_eq!(texts(&split(&chars, &[])), vec!["abc"]);
    assert_eq!(find(&chars, &[]), Some(0));
}

#[test]
fn join_puts_the_separator_between_the_parts() {
    let a = chars_of("a");
    let b = chars_of("");
    let c = chars_of("cd");
    let sep = chars_of(", ");
    assert_eq!(string_of(&join(&vec![], &sep)), "");
    assert_eq!(string_of(&join(&vec![&a[..]], &sep)), "a");
    assert_eq!(string_of(&join(&vec![&a[..], &b[..], &c[..]], &sep)), "a, , cd");
}

#[test]
fn word_is_compared_as_a_whole() {
    assert!(equals(&chars_of("auto"), "auto"));
    assert!(!equals(&chars_of("auto"), "aut"));
    assert!(!equals(&chars_of("aut"), "auto"));
    assert!(!equals(&chars_of("Auto"), "auto"));
    assert!(equals(&chars_of(""), ""));
}

#[test]
fn numbers_are_read_as_the_standard_library_reads_them() {
    let samples = [
        "", "0", "7", "007", "+7", "-7", "+", "-", "+-7", "-+7", "++7", "--7", "7+", "1 ", " 1",
        "12a", "a12", "1.5", "1_000", "\u{661}", "4294967295", "4294967296", "2147483647",
        "2147483648", "-2147483648", "-2147483649", "+2147483647", "18446744073709551615",
        "18446744073709551616", "000000000000000000000000000018446744073709551615",
        "99999999999999999999999999999999999999", "-0", "+0", "-00000000000000000000001",
    ];
    for s in samples {
        let chars = chars_of(s);
        assert_eq!(parse_u64(&chars), s.parse::<u64>().ok(), "{:?}", s);
        assert_eq!(parse_u32(&chars), s.parse::<u32>().ok(), "{:?}", s);
        assert_eq!(parse_i32(&chars), s.parse::<i32>().ok(), "{:?}", s);
    }
}

#[test]
fn numbers_are_written_as_the_standard_library_writes_them() {
    for n in [0u128, 1, 9, 10, 11, 99, 100, 999, 1_000, 12_345, u64::MAX as u128, u128::MAX] {
        assert_eq!(string_of(&decimal_chars(n)), n.to_string());
    }
}
