//! Cues: one subtitle each, with its times, its settings and its text.

use crate::error::{Failure, VttParseError};
use crate::scan;
use crate::scan::views;
use crate::settings::{VttSettings, format_settings, parse_settings_chars, parse_settings_line};
use crate::text;
use crate::text::{line_feed, space};
use crate::timestamp::{VttTimestamp, format_timestamp, parse_timestamp, parse_timestamp_chars};
use vstd::prelude::*;
use vstd::string::StringExecFns;

verus! {

/// One subtitle: when it is shown, how, and what it says.
#[derive(Debug, Clone, PartialEq, Eq)]
pub struct VttCue {
    /// The name of the cue, if it has one.
    pub identifier: Option<String>,
    /// When the cue appears.
    pub start: VttTimestamp,
    /// When the cue disappears. Nothing asks that this is later than `start`.
    pub end: VttTimestamp,
    /// The settings of the cue, if it has any.
    pub settings: Option<VttSettings>,
    /// The text of the cue, which may have several lines.
    pub payload: String,
}

/// A `VttCue` as a mathematical value; the times are in milliseconds.
pub struct CueView {
    pub identifier: Option<Seq<char>>,
    pub start: nat,
    pub end: nat,
    pub settings: Option<VttSettings>,
    pub payload: Seq<char>,
}

impl View for VttCue {
    type V = CueView;

    open spec fn view(&self) -> CueView {
        CueView {
            identifier: match self.identifier {
                Some(id) => Some(id@),
                None => None,
            },
            start: self.start@,
            end: self.end@,
            settings: self.settings,
            payload: self.payload@,
        }
    }
}

/// What stands between the two times of a cue.
pub open spec fn arrow() -> Seq<char> {
    seq!['-', '-', '>']
}

/// The times and settings of a cue.
pub struct Timing {
    pub start: nat,
    pub end: nat,
    pub settings: Option<VttSettings>,
}

/// The settings that the words after the times stand for: none where there
/// are no words, else what the words, with one space between them, are read as.
pub open spec fn parse_settings_words(words: Seq<Seq<char>>) -> Result<
    Option<VttSettings>,
    Failure,
> {
    let line = text::join(words, space());
    if line.len() == 0 {
        Ok(None)
    } else {
        match parse_settings_line(line) {
            Ok(settings) => Ok(Some(settings)),
            Err(e) => Err(e),
        }
    }
}

/// The times and settings that a timing line stands for. The line has one
/// arrow; before it stands the start, after it the end and then the settings,
/// with whitespace between them.
pub open spec fn parse_timing(line: Seq<char>) -> Result<Timing, Failure> {
    let parts = text::split(line, arrow());
    if parts.len() != 2 {
        Err(Failure::InvalidFormat)
    } else {
        match parse_timestamp(text::trim(parts[0])) {
            Err(e) => Err(e),
            Ok(start) => {
                let words = text::split_whitespace(parts[1]);
                if words.len() == 0 {
                    Err(Failure::InvalidFormat)
                } else {
                    match parse_timestamp(words[0]) {
                        Err(e) => Err(e),
                        Ok(end) => match parse_settings_words(words.skip(1)) {
                            Err(e) => Err(e),
                            Ok(settings) => Ok(Timing { start, end, settings }),
                        },
                    }
                }
            },
        }
    }
}

/// The cue that the lines stand for. A first line without an arrow is the
/// identifier; the timing line follows it, or comes first. The lines after
/// the timing line are the payload, without the whitespace around it.
pub open spec fn parse_cue_lines(lines: Seq<Seq<char>>) -> Result<CueView, Failure> {
    if lines.len() == 0 {
        Err(Failure::InvalidFormat)
    } else {
        let named = !text::contains(lines[0], arrow());
        let at: int = if named {
            1
        } else {
            0
        };
        if lines.len() <= at {
            Err(Failure::InvalidFormat)
        } else {
            match parse_timing(lines[at]) {
                Err(e) => Err(e),
                Ok(timing) => Ok(
                    CueView {
                        identifier: if named {
                            Some(lines[0])
                        } else {
                            None
                        },
                        start: timing.start,
                        end: timing.end,
                        settings: timing.settings,
                        payload: text::trim(text::join(lines.skip(at + 1), line_feed())),
                    },
                ),
            }
        }
    }
}

/// The cue that `s` stands for.
#[verifier::opaque]
pub open spec fn parse_cue(s: Seq<char>) -> Result<CueView, Failure> {
    parse_cue_lines(text::lines(s))
}

/// The line of the identifier, where there is one.
pub open spec fn identifier_line(identifier: Option<Seq<char>>) -> Seq<char> {
    match identifier {
        Some(id) => id + line_feed(),
        None => Seq::empty(),
    }
}

/// The settings as they follow the times: nothing for settings that specify
/// nothing, else a space and the settings.
pub open spec fn settings_suffix(settings: Option<VttSettings>) -> Seq<char> {
    match settings {
        Some(s) => if format_settings(s).len() > 0 {
            space() + format_settings(s)
        } else {
            Seq::empty()
        },
        None => Seq::empty(),
    }
}

/// How the timing line of a cue is written.
pub open spec fn format_timing(start: nat, end: nat, settings: Option<VttSettings>) -> Seq<char> {
    format_timestamp(start) + space() + arrow() + space() + format_timestamp(end)
        + settings_suffix(settings)
}

/// How a cue is written: the identifier on a line of its own, if there is
/// one; the timing line; the payload without the whitespace around it.
#[verifier::opaque]
pub open spec fn format_cue(cue: CueView) -> Seq<char> {
    identifier_line(cue.identifier) + format_timing(cue.start, cue.end, cue.settings)
        + line_feed() + text::trim(cue.payload)
}

/// What reading a cue gave, as a mathematical value.
pub open spec fn cue_outcome(r: Result<VttCue, VttParseError>) -> Result<CueView, Failure> {
    match r {
        Ok(cue) => Ok(cue@),
        Err(e) => Err(e@),
    }
}

/// Times and settings as they are read from a timing line.
struct ReadTiming {
    start: VttTimestamp,
    end: VttTimestamp,
    settings: Option<VttSettings>,
}

impl View for ReadTiming {
    type V = Timing;

    closed spec fn view(&self) -> Timing {
        Timing { start: self.start@, end: self.end@, settings: self.settings }
    }
}

/// The three characters of the arrow.
fn arrow_chars() -> (v: Vec<char>)
    ensures
        v@ == arrow(),
{
    let v: Vec<char> = vec!['-', '-', '>'];
    assert(v@ =~= arrow());
    v
}

/// Reads a timing line.
fn read_timing(line: &[char]) -> (r: Result<ReadTiming, VttParseError>)
    ensures
        parse_timing(line@) == match r {
            Ok(t) => Ok::<Timing, Failure>(t@),
            Err(e) => Err::<Timing, Failure>(e@),
        },
{
    let sep = arrow_chars();
    let parts = scan::split(line, sep.as_slice());
    if parts.len() != 2 {
        return Err(VttParseError::InvalidFormat);
    }
    let start = match parse_timestamp_chars(scan::trim(parts[0])) {
        Ok(t) => t,
        Err(e) => {
            return Err(e);
        },
    };
    let words = scan::split_whitespace(parts[1]);
    if words.len() == 0 {
        return Err(VttParseError::InvalidFormat);
    }
    let end = match parse_timestamp_chars(words[0]) {
        Ok(t) => t,
        Err(e) => {
            return Err(e);
        },
    };
    let gap: Vec<char> = vec![' '];
    assert(gap@ =~= space());
    let rest = scan::join_from(&words, 1, gap.as_slice());
    if rest.len() == 0 {
        Ok(ReadTiming { start, end, settings: None })
    } else {
        match parse_settings_chars(rest.as_slice()) {
            Ok(settings) => Ok(ReadTiming { start, end, settings: Some(settings) }),
            Err(e) => Err(e),
        }
    }
}

/// Reads a cue from its lines.
pub fn parse_cue_lines_chars(lines: &Vec<&[char]>) -> (r: Result<VttCue, VttParseError>)
    ensures
        cue_outcome(r) == parse_cue_lines(views(lines@)),
{
    if lines.len() == 0 {
        return Err(VttParseError::InvalidFormat);
    }
    let sep = arrow_chars();
    let named = scan::find(lines[0], sep.as_slice()).is_none();
    let at: usize = if named {
        1
    } else {
        0
    };
    if lines.len() <= at {
        return Err(VttParseError::InvalidFormat);
    }
    let timing = match read_timing(lines[at]) {
        Ok(t) => t,
        Err(e) => {
            return Err(e);
        },
    };
    let identifier = if named {
        Some(scan::string_of(lines[0]))
    } else {
        None
    };
    let feed: Vec<char> = vec!['\n'];
    assert(feed@ =~= line_feed());
    let text = scan::join_from(lines, at + 1, feed.as_slice());
    let payload = scan::string_of(scan::trim(text.as_slice()));
    Ok(VttCue { identifier, start: timing.start, end: timing.end, settings: timing.settings, payload })
}

/// Reads a cue.
pub fn parse_cue_chars(s: &[char]) -> (r: Result<VttCue, VttParseError>)
    ensures
        cue_outcome(r) == parse_cue(s@),
{
    reveal(parse_cue);
    let lines = scan::lines(s);
    parse_cue_lines_chars(&lines)
}

impl VttCue {
    /// Reads a cue: an identifier line, which is optional and holds no arrow;
    /// the timing line `start --> end`, with settings after the end if there
    /// are any; and the lines of the payload.
    pub fn from_str(s: &str) -> (r: Result<VttCue, VttParseError>)
        ensures
            cue_outcome(r) == parse_cue(s@),
    {
        let chars = scan::chars_of(s);
        parse_cue_chars(chars.as_slice())
    }

    /// Appends the identifier line to `out`, if there is an identifier.
    fn write_identifier(&self, out: &mut String)
        ensures
            final(out)@ == old(out)@ + identifier_line(self@.identifier),
    {
        match &self.identifier {
            Some(id) => {
                out.append(id.as_str());
                out.push('\n');
                assert(out@ =~= old(out)@ + identifier_line(self@.identifier));
            },
            None => {
                assert(out@ =~= old(out)@ + identifier_line(self@.identifier));
            },
        }
    }

    /// Appends the two times with the arrow between them to `out`.
    fn write_times(&self, out: &mut String)
        ensures
            final(out)@ == old(out)@ + (format_timestamp(self.start@) + space() + arrow() + space()
                + format_timestamp(self.end@)),
    {
        self.start.write_to(out);
        let ghost started = out@;
        out.push(' ');
        out.push('-');
        out.push('-');
        out.push('>');
        out.push(' ');
        assert(out@ =~= started + space() + arrow() + space());
        self.end.write_to(out);
        assert(out@ =~= old(out)@ + (format_timestamp(self.start@) + space() + arrow() + space()
            + format_timestamp(self.end@)));
    }

    /// Appends the settings to `out` as they follow the times.
    fn write_settings(&self, out: &mut String)
        ensures
            final(out)@ == old(out)@ + settings_suffix(self.settings),
    {
        match &self.settings {
            Some(settings) => {
                if !settings.is_empty() {
                    out.push(' ');
                    settings.write_to(out);
                    assert(out@ =~= old(out)@ + settings_suffix(self.settings));
                } else {
                    assert(out@ =~= old(out)@ + settings_suffix(self.settings));
                }
            },
            None => {
                assert(out@ =~= old(out)@ + settings_suffix(self.settings));
            },
        }
    }

    /// Appends the cue to `out`, as `to_string` writes it.
    pub fn write_to(&self, out: &mut String)
        ensures
            final(out)@ == old(out)@ + format_cue(self@),
    {
        reveal(format_cue);
        self.write_identifier(out);
        let ghost named = out@;
        self.write_times(out);
        self.write_settings(out);
        assert(out@ =~= named + format_timing(self.start@, self.end@, self.settings));
        out.push('\n');
        let payload = scan::chars_of(self.payload.as_str());
        scan::push_chars(out, scan::trim(payload.as_slice()));
        assert(out@ =~= old(out)@ + format_cue(self@));
    }

    /// Writes the cue: the identifier line if there is an identifier, the
    /// timing line, and the payload without the whitespace around it.
    pub fn to_string(&self) -> (r: String)
        ensures
            r@ == format_cue(self@),
    {
        let mut out = String::new();
        self.write_to(&mut out);
        out
    }
}

impl std::str::FromStr for VttCue {
    type Err = VttParseError;

    /// Reads a cue; this is what `str::parse` calls.
    fn from_str(s: &str) -> (r: Result<Self, Self::Err>)
        ensures
            cue_outcome(r) == parse_cue(s@),
    {
        VttCue::from_str(s)
    }
}

} // verus!
