//! Timestamps: a point in time, written `HH:MM:SS.mmm`.

use crate::decimal::{parse_u64, parse_unsigned, push_zero_padded, zero_padded, zeros};
use crate::error::{Failure, VttParseError};
use crate::scan;
use crate::text;
use crate::text::colon;
use std::time::Duration;
use vstd::prelude::*;
use vstd::slice::slice_subrange;

verus! {

/// The length of a `Duration`, in nanoseconds.
pub uninterp spec fn duration_nanos(d: Duration) -> nat;

/// `Duration::as_secs` returns the whole seconds of the duration.
pub assume_specification[ Duration::as_secs ](d: &Duration) -> (secs: u64)
    ensures
        secs == duration_nanos(*d) / 1_000_000_000,
;

/// `Duration::subsec_millis` returns the whole milliseconds of the part of the
/// duration that is less than a second.
pub assume_specification[ Duration::subsec_millis ](d: &Duration) -> (millis: u32)
    ensures
        millis == (duration_nanos(*d) / 1_000_000) % 1000,
;

/// `Duration::new` makes a duration of `secs` seconds and `nanos` nanoseconds.
/// With less than a second of nanoseconds nothing is carried into the seconds,
/// so the seconds cannot overflow.
pub assume_specification[ Duration::new ](secs: u64, nanos: u32) -> (d: Duration)
    requires
        nanos < 1_000_000_000,
    ensures
        duration_nanos(d) == secs * 1_000_000_000 + nanos,
;

/// The latest timestamp, in milliseconds: the longest `Duration`, which has
/// `u64::MAX` seconds, cut to whole milliseconds.
pub const MAX_MILLIS: u128 = 18_446_744_073_709_551_615_999;

/// A point in time, counted in milliseconds from the start of the media.
#[derive(Debug, Clone, Copy, PartialEq, Eq)]
pub struct VttTimestamp {
    millis: u128,
}

impl View for VttTimestamp {
    type V = nat;

    /// The milliseconds of the timestamp.
    closed spec fn view(&self) -> nat {
        self.millis as nat
    }
}

/// The separator between seconds and their fraction.
pub open spec fn dot() -> Seq<char> {
    seq!['.']
}

/// The fraction of a second as it is read: one or two characters are filled
/// up to three with zeros on the right, so that `5` stands for 500
/// milliseconds and `05` for 50; three characters or more are taken as they
/// stand, so that `1234` stands for 1234 milliseconds.
pub open spec fn padded_fraction(fraction: Seq<char>) -> Seq<char> {
    if fraction.len() < 3 {
        fraction + zeros((3 - fraction.len()) as nat)
    } else {
        fraction
    }
}

/// The seconds and milliseconds that the last part of a timestamp stands for:
/// seconds alone, or seconds, a dot and a fraction.
pub open spec fn parse_seconds(s: Seq<char>) -> Result<(nat, nat), Failure> {
    match text::find(s, dot()) {
        Some(i) => match parse_unsigned(s.take(i), u64::MAX as nat) {
            None => Err(Failure::InvalidSeconds),
            Some(seconds) => match parse_unsigned(
                padded_fraction(s.skip(i + 1)),
                u64::MAX as nat,
            ) {
                None => Err(Failure::InvalidMilliseconds),
                Some(millis) => Ok((seconds, millis)),
            },
        },
        None => match parse_unsigned(s, u64::MAX as nat) {
            None => Err(Failure::InvalidSeconds),
            Some(seconds) => Ok((seconds, 0nat)),
        },
    }
}

/// The milliseconds in so many hours, minutes, seconds and milliseconds.
pub open spec fn total_millis(hours: nat, minutes: nat, seconds: nat, millis: nat) -> nat {
    hours * 3_600_000 + minutes * 60_000 + seconds * 1_000 + millis
}

/// A total that a timestamp can hold, or the failure for one that it cannot:
/// a time beyond the longest `Duration` is not the format of a timestamp.
pub open spec fn in_range(total: nat) -> Result<nat, Failure> {
    if total <= MAX_MILLIS {
        Ok(total)
    } else {
        Err(Failure::InvalidFormat)
    }
}

/// The timestamp that `s` stands for, in milliseconds. `s` has two parts
/// (minutes and seconds) or three (hours, minutes and seconds) with colons
/// between them; any other number of parts is not the format of a timestamp.
/// The parts are read from left to right and the first one that is not a
/// number decides the failure. Each number may be as large as a `u64` can be,
/// and minutes and seconds may exceed 59; only the total must be a timestamp.
#[verifier::opaque]
pub open spec fn parse_timestamp(s: Seq<char>) -> Result<nat, Failure> {
    let parts = text::split(s, colon());
    if parts.len() == 3 {
        match parse_unsigned(parts[0], u64::MAX as nat) {
            None => Err(Failure::InvalidHours),
            Some(hours) => match parse_unsigned(parts[1], u64::MAX as nat) {
                None => Err(Failure::InvalidMinutes),
                Some(minutes) => match parse_seconds(parts[2]) {
                    Err(e) => Err(e),
                    Ok((seconds, millis)) => in_range(
                        total_millis(hours, minutes, seconds, millis),
                    ),
                },
            },
        }
    } else if parts.len() == 2 {
        match parse_unsigned(parts[0], u64::MAX as nat) {
            None => Err(Failure::InvalidMinutes),
            Some(minutes) => match parse_seconds(parts[1]) {
                Err(e) => Err(e),
                Ok((seconds, millis)) => in_range(total_millis(0, minutes, seconds, millis)),
            },
        }
    } else {
        Err(Failure::InvalidFormat)
    }
}

/// How a timestamp of so many milliseconds is written: hours, minutes and
/// seconds with two digits or more, milliseconds with three.
#[verifier::opaque]
pub open spec fn format_timestamp(millis: nat) -> Seq<char> {
    zero_padded(millis / 3_600_000, 2) + colon() + zero_padded((millis % 3_600_000) / 60_000, 2)
        + colon() + zero_padded((millis % 60_000) / 1_000, 2) + dot() + zero_padded(
        millis % 1_000,
        3,
    )
}

/// What reading a timestamp gave, as a mathematical value.
pub open spec fn timestamp_outcome(r: Result<VttTimestamp, VttParseError>) -> Result<
    nat,
    Failure,
> {
    match r {
        Ok(t) => Ok(t@),
        Err(e) => Err(e@),
    }
}

/// What reading seconds gave, as a mathematical value.
pub open spec fn seconds_outcome(r: Result<(u64, u64), VttParseError>) -> Result<
    (nat, nat),
    Failure,
> {
    match r {
        Ok(p) => Ok((p.0 as nat, p.1 as nat)),
        Err(e) => Err(e@),
    }
}

/// Reads the last part of a timestamp.
pub fn parse_seconds_chars(s: &[char]) -> (r: Result<(u64, u64), VttParseError>)
    ensures
        seconds_outcome(r) == parse_seconds(s@),
{
    let sep: Vec<char> = vec!['.'];
    assert(sep@ =~= dot());
    match scan::find(s, sep.as_slice()) {
        Some(i) => {
            proof {
                text::lemma_find(s@, dot());
            }
            let seconds = match parse_u64(slice_subrange(s, 0, i)) {
                Some(v) => v,
                None => {
                    return Err(VttParseError::InvalidSeconds);
                },
            };
            let n = s.len();
            assert(i + 1 <= n);
            let fraction = slice_subrange(s, i + 1, n);
            let mut padded: Vec<char> = Vec::new();
            scan::extend(&mut padded, fraction);
            while padded.len() < 3
                invariant
                    fraction@.len() <= padded@.len(),
                    fraction@.len() < 3 ==> padded@.len() <= 3,
                    fraction@.len() >= 3 ==> padded@.len() == fraction@.len(),
                    padded@ == fraction@ + zeros((padded@.len() - fraction@.len()) as nat),
                decreases 3 - padded@.len(),
            {
                padded.push('0');
                assert(padded@ =~= fraction@ + zeros((padded@.len() - fraction@.len()) as nat));
            }
            assert(padded@ =~= padded_fraction(fraction@));
            match parse_u64(padded.as_slice()) {
                Some(millis) => Ok((seconds, millis)),
                None => Err(VttParseError::InvalidMilliseconds),
            }
        },
        None => match parse_u64(s) {
            Some(seconds) => Ok((seconds, 0)),
            None => Err(VttParseError::InvalidSeconds),
        },
    }
}

/// Reads the last part of a timestamp: seconds, or seconds, a dot and a
/// fraction. Returns the seconds and the milliseconds.
pub fn parse_seconds_ms(seconds_str: &str) -> (r: Result<(u64, u64), VttParseError>)
    ensures
        seconds_outcome(r) == parse_seconds(seconds_str@),
{
    let chars = scan::chars_of(seconds_str);
    parse_seconds_chars(chars.as_slice())
}

/// The timestamp of so many hours, minutes, seconds and milliseconds.
fn timestamp_of(hours: u64, minutes: u64, seconds: u64, millis: u64) -> (r: Result<
    VttTimestamp,
    VttParseError,
>)
    ensures
        timestamp_outcome(r) == in_range(
            total_millis(hours as nat, minutes as nat, seconds as nat, millis as nat),
        ),
{
    let total: u128 = hours as u128 * 3_600_000 + minutes as u128 * 60_000 + seconds as u128
        * 1_000 + millis as u128;
    if total <= MAX_MILLIS {
        Ok(VttTimestamp { millis: total })
    } else {
        Err(VttParseError::InvalidFormat)
    }
}

/// Reads a timestamp.
pub fn parse_timestamp_chars(s: &[char]) -> (r: Result<VttTimestamp, VttParseError>)
    ensures
        timestamp_outcome(r) == parse_timestamp(s@),
{
    reveal(parse_timestamp);
    let sep: Vec<char> = vec![':'];
    assert(sep@ =~= colon());
    let parts = scan::split(s, sep.as_slice());
    if parts.len() == 3 {
        let hours = match parse_u64(parts[0]) {
            Some(v) => v,
            None => {
                return Err(VttParseError::InvalidHours);
            },
        };
        let minutes = match parse_u64(parts[1]) {
            Some(v) => v,
            None => {
                return Err(VttParseError::InvalidMinutes);
            },
        };
        match parse_seconds_chars(parts[2]) {
            Ok((seconds, millis)) => timestamp_of(hours, minutes, seconds, millis),
            Err(e) => Err(e),
        }
    } else if parts.len() == 2 {
        let minutes = match parse_u64(parts[0]) {
            Some(v) => v,
            None => {
                return Err(VttParseError::InvalidMinutes);
            },
        };
        match parse_seconds_chars(parts[1]) {
            Ok((seconds, millis)) => timestamp_of(0, minutes, seconds, millis),
            Err(e) => Err(e),
        }
    } else {
        Err(VttParseError::InvalidFormat)
    }
}

impl VttTimestamp {
    /// What holds of every timestamp: it is within the range of timestamps.
    #[verifier::type_invariant]
    spec fn holds(self) -> bool {
        self.millis <= MAX_MILLIS
    }

    /// The timestamp that lies `duration` after the start, to the millisecond:
    /// what `duration` has beyond its whole milliseconds is dropped.
    pub fn new(duration: Duration) -> (t: Self)
        ensures
            t@ == duration_nanos(duration) / 1_000_000,
    {
        let secs = duration.as_secs();
        let sub = duration.subsec_millis();
        VttTimestamp { millis: secs as u128 * 1_000 + sub as u128 }
    }

    /// The timestamp of so many milliseconds.
    pub fn from_millis(millis: u64) -> (t: Self)
        ensures
            t@ == millis,
    {
        VttTimestamp { millis: millis as u128 }
    }

    /// The time from the start to this timestamp.
    pub fn as_duration(&self) -> (d: Duration)
        ensures
            duration_nanos(d) == self@ * 1_000_000,
    {
        proof {
            use_type_invariant(self);
        }
        let secs = (self.millis / 1_000) as u64;
        let sub = (self.millis % 1_000) as u32;
        Duration::new(secs, sub * 1_000_000)
    }

    /// The milliseconds from the start to this timestamp.
    pub fn as_millis(&self) -> (millis: u128)
        ensures
            millis == self@,
            millis <= MAX_MILLIS,
    {
        proof {
            use_type_invariant(self);
        }
        self.millis
    }

    /// Reads a timestamp: `MM:SS`, `MM:SS.mmm`, `HH:MM:SS` or `HH:MM:SS.mmm`,
    /// each number with as many digits as it likes.
    pub fn from_str(s: &str) -> (r: Result<VttTimestamp, VttParseError>)
        ensures
            timestamp_outcome(r) == parse_timestamp(s@),
    {
        let chars = scan::chars_of(s);
        parse_timestamp_chars(chars.as_slice())
    }

    /// Appends the timestamp to `out`, as `to_string` writes it.
    pub fn write_to(&self, out: &mut String)
        ensures
            final(out)@ == old(out)@ + format_timestamp(self@),
    {
        reveal(format_timestamp);
        let millis = self.millis;
        push_zero_padded(out, millis / 3_600_000, 2);
        out.push(':');
        push_zero_padded(out, (millis % 3_600_000) / 60_000, 2);
        out.push(':');
        push_zero_padded(out, (millis % 60_000) / 1_000, 2);
        out.push('.');
        push_zero_padded(out, millis % 1_000, 3);
        assert(out@ =~= old(out)@ + format_timestamp(self@));
    }

    /// Writes the timestamp as `HH:MM:SS.mmm`.
    pub fn to_string(&self) -> (r: String)
        ensures
            r@ == format_timestamp(self@),
    {
        let mut out = String::new();
        self.write_to(&mut out);
        out
    }
}

impl std::str::FromStr for VttTimestamp {
    type Err = VttParseError;

    /// Reads a timestamp; this is what `str::parse` calls.
    fn from_str(s: &str) -> (r: Result<Self, Self::Err>)
        ensures
            timestamp_outcome(r) == parse_timestamp(s@),
    {
        VttTimestamp::from_str(s)
    }
}

} // verus!
