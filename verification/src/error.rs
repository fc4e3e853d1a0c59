//! The ways in which reading WebVTT text fails.

use vstd::prelude::*;
use vstd::string::StringExecFns;

verus! {

/// Why a text was rejected. Reading stops at the first fault, so a failure
/// names one fault only: the first in reading order.
#[derive(Debug, Clone, PartialEq, Eq)]
pub enum VttParseError {
    /// The text does not have the shape that the grammar asks for.
    InvalidFormat,
    /// The hours of a timestamp are not a number.
    InvalidHours,
    /// The minutes of a timestamp are not a number.
    InvalidMinutes,
    /// The seconds of a timestamp are not a number.
    InvalidSeconds,
    /// The fraction of a second of a timestamp is not a number.
    InvalidMilliseconds,
    /// A cue setting is unknown or has a value that its key does not allow;
    /// the text says which.
    InvalidSetting(String),
    /// The first line does not begin with `WEBVTT`.
    MissingHeader,
    /// A line of the header block is not a `key: value` pair; the text is that line.
    InvalidMetadataLine(String),
}

/// A `VttParseError` as a mathematical value.
pub enum Failure {
    InvalidFormat,
    InvalidHours,
    InvalidMinutes,
    InvalidSeconds,
    InvalidMilliseconds,
    InvalidSetting(Seq<char>),
    MissingHeader,
    InvalidMetadataLine(Seq<char>),
}

impl View for VttParseError {
    type V = Failure;

    open spec fn view(&self) -> Failure {
        match self {
            VttParseError::InvalidFormat => Failure::InvalidFormat,
            VttParseError::InvalidHours => Failure::InvalidHours,
            VttParseError::InvalidMinutes => Failure::InvalidMinutes,
            VttParseError::InvalidSeconds => Failure::InvalidSeconds,
            VttParseError::InvalidMilliseconds => Failure::InvalidMilliseconds,
            VttParseError::InvalidSetting(s) => Failure::InvalidSetting(s@),
            VttParseError::MissingHeader => Failure::MissingHeader,
            VttParseError::InvalidMetadataLine(s) => Failure::InvalidMetadataLine(s@),
        }
    }
}

impl Failure {
    /// The sentence that reports this failure.
    pub open spec fn message(self) -> Seq<char> {
        match self {
            Failure::InvalidFormat => "Invalid format"@,
            Failure::InvalidHours => "Invalid hours format"@,
            Failure::InvalidMinutes => "Invalid minutes format"@,
            Failure::InvalidSeconds => "Invalid seconds format"@,
            Failure::InvalidMilliseconds => "Invalid milliseconds format"@,
            Failure::InvalidSetting(s) => "Invalid setting: "@ + s,
            Failure::MissingHeader => "Missing WEBVTT header"@,
            Failure::InvalidMetadataLine(s) => "Invalid metadata line: "@ + s,
        }
    }
}

impl VttParseError {
    /// The sentence that reports this failure.
    pub fn to_string(&self) -> (r: String)
        ensures
            r@ == self@.message(),
    {
        match self {
            VttParseError::InvalidFormat => String::from_str("Invalid format"),
            VttParseError::InvalidHours => String::from_str("Invalid hours format"),
            VttParseError::InvalidMinutes => String::from_str("Invalid minutes format"),
            VttParseError::InvalidSeconds => String::from_str("Invalid seconds format"),
            VttParseError::InvalidMilliseconds => String::from_str("Invalid milliseconds format"),
            VttParseError::InvalidSetting(s) => {
                String::from_str("Invalid setting: ").concat(s.as_str())
            },
            VttParseError::MissingHeader => String::from_str("Missing WEBVTT header"),
            VttParseError::InvalidMetadataLine(s) => {
                String::from_str("Invalid metadata line: ").concat(s.as_str())
            },
        }
    }
}

} // verus!
