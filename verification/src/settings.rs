//! Cue settings: the `key:value` words that may follow the times of a cue.

use crate::decimal::{
    decimal_digits, parse_i32, parse_signed, parse_u32, parse_unsigned, push_decimal, push_signed,
    signed_decimal,
};
use crate::error::{Failure, VttParseError};
use crate::scan;
use crate::scan::views;
use crate::text::{colon, space};
use crate::text;
use vstd::prelude::*;
use vstd::slice::slice_subrange;
use vstd::string::StringExecFns;

verus! {

/// The direction in which the lines of a vertical cue follow each other.
#[derive(Debug, Clone, Copy, PartialEq, Eq)]
pub enum VerticalSetting {
    /// Written `rl`.
    RightToLeft,
    /// Written `lr`.
    LeftToRight,
}

/// Where the lines of a cue are placed.
#[derive(Debug, Clone, Copy, PartialEq, Eq)]
pub enum LineSetting {
    /// A share of the height, written as a number and `%`.
    Percentage(u32),
    /// A line number, written as a number with or without a minus sign.
    Number(i32),
    /// Written `auto`.
    Auto,
}

/// How the text of a cue is aligned.
#[derive(Debug, Clone, Copy, PartialEq, Eq)]
pub enum AlignSetting {
    Start,
    Middle,
    End,
    Left,
    Right,
}

/// The settings of a cue. A field that is `None` was not specified.
#[derive(Debug, Clone, Copy, PartialEq, Eq)]
pub struct VttSettings {
    pub vertical: Option<VerticalSetting>,
    pub line: Option<LineSetting>,
    /// The position of the text, in percent.
    pub position: Option<u32>,
    /// The size of the text area, in percent.
    pub size: Option<u32>,
    pub align: Option<AlignSetting>,
}

/// The settings with nothing specified.
pub open spec fn no_settings() -> VttSettings {
    VttSettings { vertical: None, line: None, position: None, size: None, align: None }
}

/// What ends a percentage.
pub open spec fn percent_sign() -> Seq<char> {
    seq!['%']
}

/// The direction that `value` names.
pub open spec fn parse_vertical(value: Seq<char>) -> Option<VerticalSetting> {
    if value == "rl"@ {
        Some(VerticalSetting::RightToLeft)
    } else if value == "lr"@ {
        Some(VerticalSetting::LeftToRight)
    } else {
        None
    }
}

/// The alignment that `value` names.
pub open spec fn parse_align(value: Seq<char>) -> Option<AlignSetting> {
    if value == "start"@ {
        Some(AlignSetting::Start)
    } else if value == "middle"@ {
        Some(AlignSetting::Middle)
    } else if value == "end"@ {
        Some(AlignSetting::End)
    } else if value == "left"@ {
        Some(AlignSetting::Left)
    } else if value == "right"@ {
        Some(AlignSetting::Right)
    } else {
        None
    }
}

/// `value` ends with a percent sign.
pub open spec fn is_percentage(value: Seq<char>) -> bool {
    value.len() > 0 && value.last() == '%'
}

/// The percentage that `value` stands for: a number and a percent sign.
pub open spec fn parse_percentage(value: Seq<char>) -> Option<u32> {
    if is_percentage(value) {
        match parse_unsigned(value.drop_last(), u32::MAX as nat) {
            Some(n) => Some(n as u32),
            None => None,
        }
    } else {
        None
    }
}

/// The failure that carries `text`.
pub open spec fn invalid_setting(text: Seq<char>) -> Failure {
    Failure::InvalidSetting(text)
}

/// The line placement that `value` stands for: `auto`, a percentage, or a
/// line number.
pub open spec fn parse_line(value: Seq<char>) -> Result<LineSetting, Failure> {
    if value == "auto"@ {
        Ok(LineSetting::Auto)
    } else if is_percentage(value) {
        match parse_percentage(value) {
            Some(n) => Ok(LineSetting::Percentage(n)),
            None => Err(invalid_setting("line percentage"@)),
        }
    } else {
        match parse_signed(value, i32::MIN as int, i32::MAX as int) {
            Some(n) => Ok(LineSetting::Number(n as i32)),
            None => Err(invalid_setting("line number"@)),
        }
    }
}

/// The settings after one more word. The word is a key, a colon and a value;
/// the key is all that stands before the first colon. The value replaces what
/// the key had before.
pub open spec fn apply_setting(settings: VttSettings, word: Seq<char>) -> Result<
    VttSettings,
    Failure,
> {
    match text::find(word, colon()) {
        None => Err(invalid_setting("Invalid setting format: "@ + word)),
        Some(i) => {
            let key = word.take(i);
            let value = word.skip(i + 1);
            if key == "vertical"@ {
                match parse_vertical(value) {
                    Some(v) => Ok(VttSettings { vertical: Some(v), ..settings }),
                    None => Err(invalid_setting("vertical:"@ + value)),
                }
            } else if key == "line"@ {
                match parse_line(value) {
                    Ok(l) => Ok(VttSettings { line: Some(l), ..settings }),
                    Err(e) => Err(e),
                }
            } else if key == "position"@ {
                match parse_percentage(value) {
                    Some(n) => Ok(VttSettings { position: Some(n), ..settings }),
                    None => Err(invalid_setting("position"@)),
                }
            } else if key == "size"@ {
                match parse_percentage(value) {
                    Some(n) => Ok(VttSettings { size: Some(n), ..settings }),
                    None => Err(invalid_setting("size"@)),
                }
            } else if key == "align"@ {
                match parse_align(value) {
                    Some(a) => Ok(VttSettings { align: Some(a), ..settings }),
                    None => Err(invalid_setting("align:"@ + value)),
                }
            } else {
                Err(invalid_setting("Unknown setting: "@ + key))
            }
        },
    }
}

/// The settings after all the words, taken from left to right; the first word
/// that fails decides the failure.
pub open spec fn apply_settings(settings: VttSettings, words: Seq<Seq<char>>) -> Result<
    VttSettings,
    Failure,
>
    decreases words.len(),
{
    if words.len() == 0 {
        Ok(settings)
    } else {
        match apply_setting(settings, words[0]) {
            Ok(next) => apply_settings(next, words.drop_first()),
            Err(e) => Err(e),
        }
    }
}

/// The settings that `s` stands for: its words, separated by whitespace, each
/// applied in turn to settings that specify nothing.
pub open spec fn parse_settings_line(s: Seq<char>) -> Result<VttSettings, Failure> {
    apply_settings(no_settings(), text::split_whitespace(s))
}

/// How a direction is written.
pub open spec fn vertical_word(v: VerticalSetting) -> Seq<char> {
    match v {
        VerticalSetting::RightToLeft => "rl"@,
        VerticalSetting::LeftToRight => "lr"@,
    }
}

/// How a percentage is written: the number and a percent sign.
pub open spec fn percentage_word(n: u32) -> Seq<char> {
    decimal_digits(n as nat) + percent_sign()
}

/// How a line placement is written.
pub open spec fn line_word(l: LineSetting) -> Seq<char> {
    match l {
        LineSetting::Percentage(n) => percentage_word(n),
        LineSetting::Number(n) => signed_decimal(n as int),
        LineSetting::Auto => "auto"@,
    }
}

/// How an alignment is written.
pub open spec fn align_word(a: AlignSetting) -> Seq<char> {
    match a {
        AlignSetting::Start => "start"@,
        AlignSetting::Middle => "middle"@,
        AlignSetting::End => "end"@,
        AlignSetting::Left => "left"@,
        AlignSetting::Right => "right"@,
    }
}

/// One setting as it is written.
pub open spec fn setting_word(key: Seq<char>, value: Seq<char>) -> Seq<char> {
    key + colon() + value
}

/// No word for a value that is not specified, one word for a value that is.
pub open spec fn optional_word(key: Seq<char>, value: Option<Seq<char>>) -> Seq<Seq<char>> {
    match value {
        Some(v) => seq![setting_word(key, v)],
        None => Seq::empty(),
    }
}

/// The direction of the settings as it is written, where it is specified.
pub open spec fn vertical_value(settings: VttSettings) -> Option<Seq<char>> {
    match settings.vertical {
        Some(v) => Some(vertical_word(v)),
        None => None,
    }
}

/// The line placement of the settings as it is written, where it is specified.
pub open spec fn line_value(settings: VttSettings) -> Option<Seq<char>> {
    match settings.line {
        Some(l) => Some(line_word(l)),
        None => None,
    }
}

/// The position of the settings as it is written, where it is specified.
pub open spec fn position_value(settings: VttSettings) -> Option<Seq<char>> {
    match settings.position {
        Some(n) => Some(percentage_word(n)),
        None => None,
    }
}

/// The size of the settings as it is written, where it is specified.
pub open spec fn size_value(settings: VttSettings) -> Option<Seq<char>> {
    match settings.size {
        Some(n) => Some(percentage_word(n)),
        None => None,
    }
}

/// The alignment of the settings as it is written, where it is specified.
pub open spec fn align_value(settings: VttSettings) -> Option<Seq<char>> {
    match settings.align {
        Some(a) => Some(align_word(a)),
        None => None,
    }
}

/// The words of the settings: one for each field that is specified, in the
/// order vertical, line, position, size, align.
pub open spec fn settings_words(settings: VttSettings) -> Seq<Seq<char>> {
    optional_word("vertical"@, vertical_value(settings)) + optional_word(
        "line"@,
        line_value(settings),
    ) + optional_word("position"@, position_value(settings)) + optional_word(
        "size"@,
        size_value(settings),
    ) + optional_word("align"@, align_value(settings))
}

/// How settings are written: their words with one space between them.
pub open spec fn format_settings(settings: VttSettings) -> Seq<char> {
    text::join(settings_words(settings), space())
}

/// What reading settings gave, as a mathematical value.
pub open spec fn settings_outcome(r: Result<VttSettings, VttParseError>) -> Result<
    VttSettings,
    Failure,
> {
    match r {
        Ok(s) => Ok(s),
        Err(e) => Err(e@),
    }
}

/// The failure that carries `label` and then `detail`.
fn setting_error(label: &str, detail: &[char]) -> (e: VttParseError)
    ensures
        e@ == invalid_setting(label@ + detail@),
{
    let mut message = String::from_str(label);
    scan::push_chars(&mut message, detail);
    VttParseError::InvalidSetting(message)
}

/// The failure that carries `label`.
fn setting_fault(label: &str) -> (e: VttParseError)
    ensures
        e@ == invalid_setting(label@),
{
    VttParseError::InvalidSetting(String::from_str(label))
}

/// Reads a percentage.
fn read_percentage(value: &[char]) -> (r: Option<u32>)
    ensures
        r == parse_percentage(value@),
{
    let n = value.len();
    if n > 0 && value[n - 1] == '%' {
        parse_u32(slice_subrange(value, 0, n - 1))
    } else {
        None
    }
}

/// Reads a line placement.
fn read_line(value: &[char]) -> (r: Result<LineSetting, VttParseError>)
    ensures
        parse_line(value@) == match r {
            Ok(l) => Ok::<LineSetting, Failure>(l),
            Err(e) => Err::<LineSetting, Failure>(e@),
        },
{
    let n = value.len();
    if scan::equals(value, "auto") {
        Ok(LineSetting::Auto)
    } else if n > 0 && value[n - 1] == '%' {
        match read_percentage(value) {
            Some(p) => Ok(LineSetting::Percentage(p)),
            None => Err(setting_fault("line percentage")),
        }
    } else {
        match parse_i32(value) {
            Some(number) => Ok(LineSetting::Number(number)),
            None => Err(setting_fault("line number")),
        }
    }
}

/// Reads a direction.
fn read_vertical(value: &[char]) -> (r: Option<VerticalSetting>)
    ensures
        r == parse_vertical(value@),
{
    if scan::equals(value, "rl") {
        Some(VerticalSetting::RightToLeft)
    } else if scan::equals(value, "lr") {
        Some(VerticalSetting::LeftToRight)
    } else {
        None
    }
}

/// Reads an alignment.
fn read_align(value: &[char]) -> (r: Option<AlignSetting>)
    ensures
        r == parse_align(value@),
{
    if scan::equals(value, "start") {
        Some(AlignSetting::Start)
    } else if scan::equals(value, "middle") {
        Some(AlignSetting::Middle)
    } else if scan::equals(value, "end") {
        Some(AlignSetting::End)
    } else if scan::equals(value, "left") {
        Some(AlignSetting::Left)
    } else if scan::equals(value, "right") {
        Some(AlignSetting::Right)
    } else {
        None
    }
}

/// The settings after one more word.
fn read_setting(settings: VttSettings, word: &[char]) -> (r: Result<VttSettings, VttParseError>)
    ensures
        settings_outcome(r) == apply_setting(settings, word@),
{
    let sep: Vec<char> = vec![':'];
    assert(sep@ =~= colon());
    let i = match scan::find(word, sep.as_slice()) {
        Some(i) => i,
        None => {
            return Err(setting_error("Invalid setting format: ", word));
        },
    };
    proof {
        text::lemma_find(word@, colon());
    }
    let n = word.len();
    assert(i + 1 <= n);
    let key = slice_subrange(word, 0, i);
    let value = slice_subrange(word, i + 1, n);
    if scan::equals(key, "vertical") {
        match read_vertical(value) {
            Some(v) => Ok(VttSettings { vertical: Some(v), ..settings }),
            None => Err(setting_error("vertical:", value)),
        }
    } else if scan::equals(key, "line") {
        match read_line(value) {
            Ok(l) => Ok(VttSettings { line: Some(l), ..settings }),
            Err(e) => Err(e),
        }
    } else if scan::equals(key, "position") {
        match read_percentage(value) {
            Some(p) => Ok(VttSettings { position: Some(p), ..settings }),
            None => Err(setting_fault("position")),
        }
    } else if scan::equals(key, "size") {
        match read_percentage(value) {
            Some(p) => Ok(VttSettings { size: Some(p), ..settings }),
            None => Err(setting_fault("size")),
        }
    } else if scan::equals(key, "align") {
        match read_align(value) {
            Some(a) => Ok(VttSettings { align: Some(a), ..settings }),
            None => Err(setting_error("align:", value)),
        }
    } else {
        Err(setting_error("Unknown setting: ", key))
    }
}

/// Reads the settings of a cue.
pub fn parse_settings_chars(s: &[char]) -> (r: Result<VttSettings, VttParseError>)
    ensures
        settings_outcome(r) == parse_settings_line(s@),
{
    let words = scan::split_whitespace(s);
    let mut settings = VttSettings::default();
    let mut i: usize = 0;
    assert(views(words@).skip(0) =~= views(words@));
    while i < words.len()
        invariant
            i <= words@.len(),
            parse_settings_line(s@) == apply_settings(settings, views(words@).skip(i as int)),
        decreases words@.len() - i,
    {
        let ghost rest = views(words@).skip(i as int);
        assert(rest[0] == words@[i as int]@);
        assert(rest.drop_first() =~= views(words@).skip(i + 1));
        match read_setting(settings, words[i]) {
            Ok(next) => {
                settings = next;
            },
            Err(e) => {
                return Err(e);
            },
        }
        i += 1;
    }
    Ok(settings)
}

/// Reads the settings of a cue: words of the form `key:value` with
/// whitespace between them, where the key is one of `vertical`, `line`,
/// `position`, `size` and `align`. Where a key comes twice, the later value
/// stands. A word of any other form, an unknown key and a value that the key
/// does not allow are failures; nothing is passed over.
pub fn parse_settings(settings_str: &str) -> (r: Result<VttSettings, VttParseError>)
    ensures
        settings_outcome(r) == parse_settings_line(settings_str@),
{
    let chars = scan::chars_of(settings_str);
    parse_settings_chars(chars.as_slice())
}

impl VerticalSetting {
    /// Writes the direction: `rl` or `lr`.
    pub fn to_string(&self) -> (r: String)
        ensures
            r@ == vertical_word(*self),
    {
        match self {
            VerticalSetting::RightToLeft => String::from_str("rl"),
            VerticalSetting::LeftToRight => String::from_str("lr"),
        }
    }
}

impl LineSetting {
    /// Writes the placement: `90%`, `-5` or `auto`.
    pub fn to_string(&self) -> (r: String)
        ensures
            r@ == line_word(*self),
    {
        match self {
            LineSetting::Percentage(n) => percentage_string(*n),
            LineSetting::Number(n) => {
                let mut out = String::new();
                push_signed(&mut out, *n);
                out
            },
            LineSetting::Auto => String::from_str("auto"),
        }
    }
}

impl AlignSetting {
    /// Writes the alignment: `start`, `middle`, `end`, `left` or `right`.
    pub fn to_string(&self) -> (r: String)
        ensures
            r@ == align_word(*self),
    {
        match self {
            AlignSetting::Start => String::from_str("start"),
            AlignSetting::Middle => String::from_str("middle"),
            AlignSetting::End => String::from_str("end"),
            AlignSetting::Left => String::from_str("left"),
            AlignSetting::Right => String::from_str("right"),
        }
    }
}

/// Writes a percentage.
fn percentage_string(n: u32) -> (r: String)
    ensures
        r@ == percentage_word(n),
{
    let mut out = String::new();
    push_decimal(&mut out, n as u128);
    out.push('%');
    assert(out@ =~= percentage_word(n));
    out
}

/// Appends one more word to words that were written with spaces between them.
fn push_word(out: &mut String, key: &str, value: &str, Ghost(start): Ghost<Seq<char>>, Ghost(
    words,
): Ghost<Seq<Seq<char>>>, first: bool)
    requires
        old(out)@ == start + text::join(words, space()),
        first == (words.len() == 0),
    ensures
        final(out)@ == start + text::join(words.push(setting_word(key@, value@)), space()),
{
    if !first {
        out.push(' ');
    }
    out.append(key);
    out.push(':');
    out.append(value);
    proof {
        let more = words.push(setting_word(key@, value@));
        assert(more.drop_last() =~= words);
        assert(out@ =~= start + text::join(more, space()));
    }
}

impl Default for VttSettings {
    fn default() -> (r: Self)
        ensures
            r == no_settings(),
    {
        VttSettings { vertical: None, line: None, position: None, size: None, align: None }
    }
}

impl VttSettings {
    /// Whether nothing is specified.
    pub fn is_empty(&self) -> (r: bool)
        ensures
            r == (*self == no_settings()),
            r == (format_settings(*self).len() == 0),
    {
        proof {
            lemma_written_settings_len(*self);
        }
        self.vertical.is_none() && self.line.is_none() && self.position.is_none()
            && self.size.is_none() && self.align.is_none()
    }

    /// Appends the settings to `out`, as `to_string` writes them.
    pub fn write_to(&self, out: &mut String)
        ensures
            final(out)@ == old(out)@ + format_settings(*self),
    {
        let ghost start = out@;
        let ghost mut words: Seq<Seq<char>> = Seq::empty();
        let mut first = true;
        assert(out@ =~= start + text::join(words, space()));
        if let Some(v) = self.vertical {
            let value = v.to_string();
            push_word(out, "vertical", value.as_str(), Ghost(start), Ghost(words), first);
            proof {
                words = words.push(setting_word("vertical"@, value@));
            }
            first = false;
        }
        assert(words =~= optional_word("vertical"@, vertical_value(*self)));
        let ghost words1 = words;
        if let Some(l) = self.line {
            let value = l.to_string();
            push_word(out, "line", value.as_str(), Ghost(start), Ghost(words), first);
            proof {
                words = words.push(setting_word("line"@, value@));
            }
            first = false;
        }
        assert(words =~= words1 + optional_word("line"@, line_value(*self)));
        let ghost words2 = words;
        if let Some(n) = self.position {
            let value = percentage_string(n);
            push_word(out, "position", value.as_str(), Ghost(start), Ghost(words), first);
            proof {
                words = words.push(setting_word("position"@, value@));
            }
            first = false;
        }
        assert(words =~= words2 + optional_word("position"@, position_value(*self)));
        let ghost words3 = words;
        if let Some(n) = self.size {
            let value = percentage_string(n);
            push_word(out, "size", value.as_str(), Ghost(start), Ghost(words), first);
            proof {
                words = words.push(setting_word("size"@, value@));
            }
            first = false;
        }
        assert(words =~= words3 + optional_word("size"@, size_value(*self)));
        let ghost words4 = words;
        if let Some(a) = self.align {
            let value = a.to_string();
            push_word(out, "align", value.as_str(), Ghost(start), Ghost(words), first);
            proof {
                words = words.push(setting_word("align"@, value@));
            }
            first = false;
        }
        assert(words =~= words4 + optional_word("align"@, align_value(*self)));
        assert(words == settings_words(*self));
    }

    /// Writes the settings: one word `key:value` for each field that is
    /// specified, in the order vertical, line, position, size, align, with
    /// one space between two words. With nothing specified the text is empty.
    pub fn to_string(&self) -> (r: String)
        ensures
            r@ == format_settings(*self),
    {
        let mut out = String::new();
        self.write_to(&mut out);
        out
    }
}

/// Settings are written as nothing exactly when they specify nothing.
pub proof fn lemma_written_settings_len(settings: VttSettings)
    ensures
        (format_settings(settings).len() == 0) == (settings == no_settings()),
{
    let words = settings_words(settings);
    if settings == no_settings() {
        assert(words =~= Seq::<Seq<char>>::empty());
    } else {
        assert(words.len() > 0);
        lemma_join_len(words, space());
        assert(words.last().len() > 0) by {
            assert(colon().len() == 1);
        }
    }
}

/// What is joined is at least as long as the last part.
pub proof fn lemma_join_len(parts: Seq<Seq<char>>, sep: Seq<char>)
    requires
        parts.len() > 0,
    ensures
        text::join(parts, sep).len() >= parts.last().len(),
{
}

} // verus!
