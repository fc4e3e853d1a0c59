//! A timestamp that is written and read again is the same timestamp.

use crate::decimal::{
    all_digits, is_digit, lemma_digits_lack, lemma_parse_zero_padded, lemma_three_digits,
    lemma_zero_padded, zero_padded,
};
use crate::error::Failure;
use crate::text;
use crate::text::{colon, lacks};
use crate::text_laws::{is_trimmed, lemma_absent, lemma_find_after, lemma_split_after};
use crate::timestamp::{
    MAX_MILLIS, dot, format_timestamp, parse_seconds, parse_timestamp, total_millis,
};
use vstd::prelude::*;

verus! {

/// The characters that a timestamp is written with.
pub open spec fn is_time_char(c: char) -> bool {
    is_digit(c) || c == ':' || c == '.'
}

/// Seconds with a fraction of three digits, as `format_timestamp` writes
/// them, are read back as they were.
proof fn lemma_parse_written_seconds(seconds: nat, millis: nat)
    requires
        seconds < 60,
        millis < 1000,
    ensures
        parse_seconds(zero_padded(seconds, 2) + dot() + zero_padded(millis, 3)) == Ok::<
            (nat, nat),
            Failure,
        >((seconds, millis)),
        text::lacks(zero_padded(seconds, 2) + dot() + zero_padded(millis, 3), ':'),
{
    let whole = zero_padded(seconds, 2);
    let fraction = zero_padded(millis, 3);
    let s = whole + dot() + fraction;
    lemma_zero_padded(seconds, 2);
    lemma_zero_padded(millis, 3);
    lemma_three_digits(millis);
    lemma_digits_lack(whole, '.');
    lemma_find_after(whole, dot(), fraction);
    assert(s.take(whole.len() as int) =~= whole);
    assert(s.skip(whole.len() as int + 1) =~= fraction);
    lemma_parse_zero_padded(seconds, 2, u64::MAX as nat);
    lemma_parse_zero_padded(millis, 3, u64::MAX as nat);
    assert forall|i: int| 0 <= i < s.len() implies #[trigger] s[i] != ':' by {
        if i < whole.len() {
            assert(is_digit(whole[i]));
        } else if i > whole.len() {
            assert(is_digit(fraction[i - whole.len() - 1]));
        }
    }
}

/// Hours, minutes, seconds and milliseconds as `format_timestamp` takes them
/// from a timestamp add up to that timestamp.
proof fn lemma_units(millis: nat)
    requires
        millis <= MAX_MILLIS,
    ensures
        total_millis(
            millis / 3_600_000,
            (millis % 3_600_000) / 60_000,
            (millis % 60_000) / 1_000,
            millis % 1_000,
        ) == millis,
        millis / 3_600_000 <= u64::MAX,
        (millis % 3_600_000) / 60_000 < 60,
        (millis % 60_000) / 1_000 < 60,
{
    let total = millis as int;
    let hours = total / 3_600_000;
    let in_hour = total % 3_600_000;
    let in_minute = total % 60_000;
    assert(total == 3_600_000 * hours + in_hour);
    assert(in_hour % 60_000 == in_minute) by {
        assert(total == 60_000 * (60 * hours) + in_hour);
        vstd::arithmetic::div_mod::lemma_mod_multiples_vanish(60 * hours, in_hour, 60_000);
    }
    assert(in_hour == 60_000 * (in_hour / 60_000) + in_minute);
    assert(in_minute % 1_000 == total % 1_000) by {
        assert(total == 1_000 * (60 * (total / 60_000)) + in_minute);
        vstd::arithmetic::div_mod::lemma_mod_multiples_vanish(
            60 * (total / 60_000),
            in_minute,
            1_000,
        );
    }
    assert(in_minute == 1_000 * (in_minute / 1_000) + in_minute % 1_000);
}

/// The parts of a written timestamp are its hours, its minutes and its seconds.
proof fn lemma_written_parts(hours: Seq<char>, minutes: Seq<char>, seconds: Seq<char>)
    requires
        all_digits(hours),
        all_digits(minutes),
        text::lacks(seconds, ':'),
    ensures
        text::split(hours + colon() + minutes + colon() + seconds, colon()) == seq![
            hours,
            minutes,
            seconds,
        ],
{
    let tail = minutes + colon() + seconds;
    let written = hours + colon() + minutes + colon() + seconds;
    assert(written =~= hours + colon() + tail);
    lemma_digits_lack(hours, ':');
    lemma_digits_lack(minutes, ':');
    lemma_split_after(hours, colon(), tail);
    lemma_split_after(minutes, colon(), seconds);
    lemma_absent(seconds, colon(), 0);
    assert(seq![hours] + (seq![minutes] + seq![seconds]) =~= seq![hours, minutes, seconds]);
}

/// A timestamp that is written and read again is the same timestamp: reading
/// undoes writing, for every timestamp there is.
pub proof fn lemma_timestamp_round_trip(millis: nat)
    requires
        millis <= MAX_MILLIS,
    ensures
        parse_timestamp(format_timestamp(millis)) == Ok::<nat, Failure>(millis),
{
    reveal(parse_timestamp);
    reveal(format_timestamp);
    let h = millis / 3_600_000;
    let m = (millis % 3_600_000) / 60_000;
    let s = (millis % 60_000) / 1_000;
    let ms = millis % 1_000;
    let hours = zero_padded(h, 2);
    let minutes = zero_padded(m, 2);
    let seconds = zero_padded(s, 2) + dot() + zero_padded(ms, 3);
    lemma_units(millis);
    lemma_zero_padded(h, 2);
    lemma_zero_padded(m, 2);
    lemma_parse_written_seconds(s, ms);
    lemma_written_parts(hours, minutes, seconds);
    assert(format_timestamp(millis) =~= hours + colon() + minutes + colon() + seconds);
    lemma_parse_zero_padded(h, 2, u64::MAX as nat);
    lemma_parse_zero_padded(m, 2, u64::MAX as nat);
}

/// The form in which every timestamp is written: hours with two digits or
/// more, a colon, minutes below sixty with two digits, a colon, seconds below
/// sixty with two digits, a dot, and milliseconds with three digits.
pub proof fn lemma_timestamp_form(millis: nat)
    ensures
        format_timestamp(millis) == zero_padded(millis / 3_600_000, 2) + colon() + zero_padded(
            (millis % 3_600_000) / 60_000,
            2,
        ) + colon() + zero_padded((millis % 60_000) / 1_000, 2) + dot() + zero_padded(
            millis % 1_000,
            3,
        ),
        (millis % 3_600_000) / 60_000 < 60,
        (millis % 60_000) / 1_000 < 60,
        millis % 1_000 < 1_000,
        zero_padded(millis / 3_600_000, 2).len() >= 2,
        zero_padded((millis % 3_600_000) / 60_000, 2).len() == 2,
        zero_padded((millis % 60_000) / 1_000, 2).len() == 2,
        zero_padded(millis % 1_000, 3).len() == 3,
        all_digits(zero_padded(millis / 3_600_000, 2)),
        all_digits(zero_padded((millis % 3_600_000) / 60_000, 2)),
        all_digits(zero_padded((millis % 60_000) / 1_000, 2)),
        all_digits(zero_padded(millis % 1_000, 3)),
{
    reveal(format_timestamp);
    lemma_zero_padded(millis / 3_600_000, 2);
    lemma_zero_padded((millis % 3_600_000) / 60_000, 2);
    lemma_zero_padded((millis % 60_000) / 1_000, 2);
    lemma_zero_padded(millis % 1_000, 3);
    lemma_three_digits((millis % 3_600_000) / 60_000);
    lemma_three_digits((millis % 60_000) / 1_000);
    lemma_three_digits(millis % 1_000);
}

/// Whatever text is read as a timestamp, the timestamp is written in the one
/// form `HH:MM:SS.mmm`, and that form is read as the same timestamp.
pub proof fn lemma_timestamp_stable(s: Seq<char>)
    requires
        parse_timestamp(s) is Ok,
    ensures
        parse_timestamp(format_timestamp(parse_timestamp(s)->Ok_0)) == parse_timestamp(s),
{
    lemma_parsed_timestamp(s);
    lemma_timestamp_round_trip(parse_timestamp(s)->Ok_0);
}

/// What a written timestamp is made of.
pub proof fn lemma_timestamp_text(millis: nat)
    ensures
        format_timestamp(millis).len() > 0,
        forall|i: int|
            0 <= i < format_timestamp(millis).len() ==> is_time_char(
                #[trigger] format_timestamp(millis)[i],
            ),
        is_digit(format_timestamp(millis)[0]),
        is_digit(format_timestamp(millis).last()),
        text::is_word(format_timestamp(millis)),
        is_trimmed(format_timestamp(millis)),
{
    reveal(format_timestamp);
    let h = zero_padded(millis / 3_600_000, 2);
    let m = zero_padded((millis % 3_600_000) / 60_000, 2);
    let s = zero_padded((millis % 60_000) / 1_000, 2);
    let f = zero_padded(millis % 1_000, 3);
    lemma_zero_padded(millis / 3_600_000, 2);
    lemma_zero_padded((millis % 3_600_000) / 60_000, 2);
    lemma_zero_padded((millis % 60_000) / 1_000, 2);
    lemma_zero_padded(millis % 1_000, 3);
    let t = format_timestamp(millis);
    assert(t =~= h + colon() + m + colon() + s + dot() + f);
    assert forall|i: int| 0 <= i < t.len() implies is_time_char(#[trigger] t[i]) by {
        let a = h.len() as int;
        let b = a + 1 + m.len();
        let c = b + 1 + s.len();
        if i < a {
            assert(is_digit(h[i]));
        } else if i == a {
        } else if i < b {
            assert(is_digit(m[i - a - 1]));
        } else if i == b {
        } else if i < c {
            assert(is_digit(s[i - b - 1]));
        } else if i == c {
        } else {
            assert(is_digit(f[i - c - 1]));
        }
    }
    assert(t[0] == h[0]);
    assert(is_digit(h[0]));
    assert(t.last() == f.last());
    assert(is_digit(f[f.len() - 1]));
    assert forall|i: int| 0 <= i < t.len() implies !text::whitespace()(#[trigger] t[i]) by {
        assert(is_time_char(t[i]));
    }
}

/// A written timestamp lacks every character that a timestamp is not
/// written with.
pub proof fn lemma_timestamp_lacks(millis: nat, c: char)
    requires
        !is_time_char(c),
    ensures
        lacks(format_timestamp(millis), c),
{
    lemma_timestamp_text(millis);
    let t = format_timestamp(millis);
    assert forall|i: int| 0 <= i < t.len() implies #[trigger] t[i] != c by {
        assert(is_time_char(t[i]));
    }
}

/// A timestamp that is read is within the range of timestamps.
pub proof fn lemma_parsed_timestamp(s: Seq<char>)
    requires
        parse_timestamp(s) is Ok,
    ensures
        parse_timestamp(s)->Ok_0 <= MAX_MILLIS,
{
    reveal(parse_timestamp);
}

} // verus!
