//! A cue that is written and read again is the same cue.

use crate::cue::{
    CueView, Timing, arrow, format_cue, format_timing, parse_cue, parse_cue_lines,
    parse_settings_words, parse_timing, settings_suffix,
};
use crate::error::Failure;
use crate::runs::lemma_runs_none;
use crate::settings::{
    VttSettings, format_settings, lemma_written_settings_len, no_settings, settings_words,
};
use crate::settings_laws::{
    is_plain, is_setting_word, lemma_settings_round_trip, lemma_settings_words,
};
use crate::text::{blank, is_blank_line, is_whitespace, join, lacks, line_feed, space, split, trim};
use crate::text;
use crate::text_laws::{
    ends_plainly, is_trimmed, lemma_absent, lemma_concat_lacks, lemma_find_after, lemma_join_concat,
    lemma_join_lacks, lemma_join_last, lemma_join_push, lemma_join_split, lemma_lines_join,
    lemma_mark, lemma_not_blank, lemma_split_after, lemma_split_lacks, lemma_split_last,
    lemma_split_whitespace_join, lemma_split_whitespace_skip, lemma_split_whitespace_word,
    lemma_trim_around, lemma_trim_trimmed,
};
use crate::timestamp::{MAX_MILLIS, format_timestamp};
use crate::timestamp_laws::{
    lemma_timestamp_lacks, lemma_timestamp_round_trip, lemma_timestamp_text,
};
use vstd::prelude::*;

verus! {

/// The lines of a payload: none for an empty payload.
pub open spec fn payload_lines(payload: Seq<char>) -> Seq<Seq<char>> {
    if payload.len() == 0 {
        Seq::empty()
    } else {
        split(payload, line_feed())
    }
}

/// The lines of a cue before its payload: the identifier, if there is one,
/// and the timing line.
pub open spec fn head_lines(cue: CueView) -> Seq<Seq<char>> {
    match cue.identifier {
        Some(id) => seq![id, format_timing(cue.start, cue.end, cue.settings)],
        None => seq![format_timing(cue.start, cue.end, cue.settings)],
    }
}

/// The lines of a cue.
pub open spec fn cue_block(cue: CueView) -> Seq<Seq<char>> {
    head_lines(cue) + payload_lines(cue.payload)
}

/// A line that is one line, and does not end with a carriage return.
pub open spec fn is_plain_line(line: Seq<char>) -> bool {
    lacks(line, '\n') && ends_plainly(line)
}

/// A line as it can stand in a block of a document: a plain line that is
/// not blank.
pub open spec fn is_block_line(line: Seq<char>) -> bool {
    is_plain_line(line) && !is_blank_line(line)
}

/// Settings as reading gives them: where there are settings, they specify
/// something.
pub open spec fn canonical_settings(settings: Option<VttSettings>) -> bool {
    match settings {
        Some(s) => s != no_settings(),
        None => true,
    }
}

/// An identifier as reading a cue gives it, and without a carriage return
/// at its end.
pub open spec fn readable_identifier(identifier: Option<Seq<char>>) -> bool {
    match identifier {
        Some(id) => is_plain_line(id) && !text::contains(id, arrow()),
        None => true,
    }
}

/// A payload as reading a cue gives it, and without a carriage return at
/// the end of a line.
pub open spec fn readable_payload(payload: Seq<char>) -> bool {
    is_trimmed(payload) && forall|i: int|
        0 <= i < payload_lines(payload).len() ==> ends_plainly(
            #[trigger] payload_lines(payload)[i],
        )
}

/// A cue as reading a cue gives it, and without a carriage return at the
/// end of its identifier or of a line of its payload.
pub open spec fn readable_cue(cue: CueView) -> bool {
    &&& cue.start <= MAX_MILLIS
    &&& cue.end <= MAX_MILLIS
    &&& canonical_settings(cue.settings)
    &&& readable_identifier(cue.identifier)
    &&& readable_payload(cue.payload)
}

/// A cue as reading a document gives it, and without a carriage return at
/// the end of its identifier or of a line of its payload: a cue as reading a
/// cue gives it, without a blank line among its lines.
pub open spec fn canonical_cue(cue: CueView) -> bool {
    &&& readable_cue(cue)
    &&& cue.identifier matches Some(id) ==> !is_blank_line(id)
    &&& forall|i: int|
        0 <= i < payload_lines(cue.payload).len() ==> !is_blank_line(
            #[trigger] payload_lines(cue.payload)[i],
        )
}

/// Written settings lack every character that they are not written with.
pub proof fn lemma_settings_lack(settings: VttSettings, c: char)
    requires
        !is_plain(c),
        c != ':',
        c != ' ',
    ensures
        lacks(format_settings(settings), c),
{
    let words = settings_words(settings);
    lemma_settings_words(settings);
    assert forall|i: int| 0 <= i < words.len() implies lacks(#[trigger] words[i], c) by {
        assert(is_setting_word(words[i]));
        assert forall|j: int| 0 <= j < words[i].len() implies #[trigger] words[i][j] != c by {
            assert(is_plain(words[i][j]) || words[i][j] == ':');
        }
    }
    lemma_join_lacks(words, space(), c);
}

/// Written settings that are not empty end with a plain character or a
/// colon, and begin with one.
pub proof fn lemma_settings_ends(settings: VttSettings)
    requires
        settings != no_settings(),
    ensures
        format_settings(settings).len() > 0,
        is_plain(format_settings(settings).last()) || format_settings(settings).last() == ':',
{
    let words = settings_words(settings);
    lemma_written_settings_len(settings);
    lemma_settings_words(settings);
    assert(words.len() > 0) by {
        if words.len() == 0 {
            assert(join(words, space()).len() == 0);
        }
    }
    assert(is_setting_word(words.last()));
    lemma_join_last(words, space());
    let w = words.last();
    assert(is_plain(w[w.len() - 1]) || w[w.len() - 1] == ':');
}

/// The words of what follows the times of a cue are the words of the
/// settings.
proof fn lemma_suffix_words(settings: Option<VttSettings>)
    requires
        canonical_settings(settings),
    ensures
        settings_suffix(settings).len() > 0 ==> settings_suffix(settings)[0] == ' ',
        parse_settings_words(text::split_whitespace(settings_suffix(settings))) == Ok::<
            Option<VttSettings>,
            Failure,
        >(settings),
        lacks(settings_suffix(settings), '>'),
        lacks(settings_suffix(settings), '\n'),
        settings_suffix(settings).len() > 0 ==> settings_suffix(settings).last() != '\r'
            && !is_whitespace(settings_suffix(settings).last()),
{
    let suffix = settings_suffix(settings);
    match settings {
        Some(s) => {
            let written = format_settings(s);
            let words = settings_words(s);
            lemma_settings_ends(s);
            lemma_settings_words(s);
            lemma_settings_round_trip(s);
            assert(suffix == space() + written);
            lemma_split_whitespace_skip(suffix, 1);
            assert(suffix.skip(1) =~= written);
            lemma_split_whitespace_join(words);
            lemma_settings_lack(s, '>');
            lemma_settings_lack(s, '\n');
            lemma_concat_lacks(space(), written, '>');
            lemma_concat_lacks(space(), written, '\n');
            assert(suffix.last() == written.last());
        },
        None => {
            lemma_runs_none(suffix, text::whitespace());
            assert(join(Seq::<Seq<char>>::empty(), space()).len() == 0);
        },
    }
}

/// A line with an arrow between two times: its two parts, and the words
/// after the arrow.
proof fn lemma_arrow_line(from: Seq<char>, to: Seq<char>, suffix: Seq<char>)
    requires
        lacks(from, '-'),
        lacks(to, '>'),
        lacks(suffix, '>'),
        is_trimmed(from),
        text::is_word(to),
        suffix.len() > 0 ==> suffix[0] == ' ',
    ensures
        split(from + space() + arrow() + space() + to + suffix, arrow()) == seq![
            from + space(),
            space() + (to + suffix),
        ],
        text::contains(from + space() + arrow() + space() + to + suffix, arrow()),
        trim(from + space()) == from,
        text::split_whitespace(space() + (to + suffix)) == seq![to] + text::split_whitespace(
            suffix,
        ),
{
    let line = from + space() + arrow() + space() + to + suffix;
    let left = from + space();
    let after = to + suffix;
    let right = space() + after;
    assert(line =~= left + arrow() + right);
    lemma_concat_lacks(from, space(), '-');
    lemma_find_after(left, arrow(), right);
    lemma_split_after(left, arrow(), right);
    lemma_concat_lacks(to, suffix, '>');
    lemma_concat_lacks(space(), after, '>');
    lemma_absent(right, arrow(), 2);
    assert(seq![left] + seq![right] =~= seq![left, right]);
    lemma_trim_around(Seq::<char>::empty(), from, space());
    assert(Seq::<char>::empty() + from + space() =~= left);
    lemma_split_whitespace_skip(right, 1);
    assert(right.skip(1) =~= after);
    lemma_split_whitespace_word(to, suffix);
}

/// A line with an arrow between two times is one line, is not blank, and
/// does not end with a carriage return.
proof fn lemma_arrow_line_shape(from: Seq<char>, to: Seq<char>, suffix: Seq<char>)
    requires
        lacks(from, '\n'),
        lacks(to, '\n'),
        lacks(suffix, '\n'),
        from.len() > 0,
        !is_whitespace(from[0]),
        to.len() > 0,
        to.last() != '\r',
        suffix.len() > 0 ==> suffix.last() != '\r',
    ensures
        is_block_line(from + space() + arrow() + space() + to + suffix),
{
    let line = from + space() + arrow() + space() + to + suffix;
    lemma_concat_lacks(from, space(), '\n');
    lemma_concat_lacks(from + space(), arrow(), '\n');
    lemma_concat_lacks(from + space() + arrow(), space(), '\n');
    lemma_concat_lacks(from + space() + arrow() + space(), to, '\n');
    lemma_concat_lacks(from + space() + arrow() + space() + to, suffix, '\n');
    assert(line[0] == from[0]);
    lemma_not_blank(line, 0);
    if suffix.len() > 0 {
        assert(line.last() == suffix.last());
    } else {
        assert(line.last() == to.last());
    }
}

/// What a written timing line is: two parts around the arrow, and in them
/// the times and the settings that were written.
pub proof fn lemma_timing_line(start: nat, end: nat, settings: Option<VttSettings>)
    requires
        start <= MAX_MILLIS,
        end <= MAX_MILLIS,
        canonical_settings(settings),
    ensures
        parse_timing(format_timing(start, end, settings)) == Ok::<Timing, Failure>(
            Timing { start, end, settings },
        ),
        text::contains(format_timing(start, end, settings), arrow()),
        is_block_line(format_timing(start, end, settings)),
{
    let from = format_timestamp(start);
    let to = format_timestamp(end);
    let suffix = settings_suffix(settings);
    lemma_timestamp_text(start);
    lemma_timestamp_text(end);
    lemma_suffix_words(settings);
    lemma_timestamp_lacks(start, '-');
    lemma_timestamp_lacks(end, '>');
    lemma_timestamp_lacks(start, '\n');
    lemma_timestamp_lacks(end, '\n');
    lemma_arrow_line(from, to, suffix);
    lemma_arrow_line_shape(from, to, suffix);
    lemma_timestamp_round_trip(start);
    lemma_timestamp_round_trip(end);
    let right = space() + (to + suffix);
    let words = text::split_whitespace(right);
    assert(words[0] == to);
    assert(words.skip(1) =~= text::split_whitespace(suffix));
}

/// The lines of a cue are plain lines, and the last of them is not empty.
pub proof fn lemma_cue_plain_lines(cue: CueView)
    requires
        readable_cue(cue),
    ensures
        cue_block(cue).len() >= 1,
        cue_block(cue).last().len() > 0,
        forall|i: int| 0 <= i < cue_block(cue).len() ==> is_plain_line(#[trigger] cue_block(cue)[i]),
{
    let block = cue_block(cue);
    let head = head_lines(cue);
    let rest = payload_lines(cue.payload);
    lemma_timing_line(cue.start, cue.end, cue.settings);
    lemma_split_lacks(cue.payload, '\n');
    assert forall|i: int| 0 <= i < block.len() implies is_plain_line(#[trigger] block[i]) by {
        if i < head.len() {
            assert(block[i] == head[i]);
        } else {
            assert(block[i] == rest[i - head.len()]);
            assert(lacks(split(cue.payload, line_feed())[i - head.len()], '\n'));
        }
    }
    if cue.payload.len() > 0 {
        lemma_split_last(cue.payload, '\n');
        assert(block.last() == rest.last());
    } else {
        assert(block.last() == head.last());
        lemma_mark(head.last());
    }
}

/// The lines of a cue are lines as they can stand in a block of a document.
pub proof fn lemma_cue_block(cue: CueView)
    requires
        canonical_cue(cue),
    ensures
        cue_block(cue).len() >= 1,
        forall|i: int| 0 <= i < cue_block(cue).len() ==> is_block_line(#[trigger] cue_block(cue)[i]),
{
    let block = cue_block(cue);
    let head = head_lines(cue);
    let rest = payload_lines(cue.payload);
    lemma_timing_line(cue.start, cue.end, cue.settings);
    lemma_cue_plain_lines(cue);
    assert forall|i: int| 0 <= i < block.len() implies is_block_line(#[trigger] block[i]) by {
        assert(is_plain_line(block[i]));
        if i < head.len() {
            assert(block[i] == head[i]);
        } else {
            assert(block[i] == rest[i - head.len()]);
        }
    }
}

/// The lines of a cue are read as the cue.
pub proof fn lemma_parse_cue_block(cue: CueView)
    requires
        readable_cue(cue),
    ensures
        parse_cue_lines(cue_block(cue)) == Ok::<CueView, Failure>(cue),
{
    let block = cue_block(cue);
    let head = head_lines(cue);
    let rest = payload_lines(cue.payload);
    let timing = format_timing(cue.start, cue.end, cue.settings);
    lemma_timing_line(cue.start, cue.end, cue.settings);
    assert(block[0] == head[0]);
    let at: int = if cue.identifier is Some {
        1
    } else {
        0
    };
    assert(block[at] == timing);
    assert(block.skip(at + 1) =~= rest);
    if cue.payload.len() == 0 {
        assert(join(rest, line_feed()) =~= Seq::<char>::empty());
    } else {
        lemma_join_split(cue.payload, line_feed());
    }
    lemma_trim_trimmed(cue.payload);
    let read = parse_cue_lines(block)->Ok_0;
    assert(read.identifier == cue.identifier);
    assert(read.payload == cue.payload);
}

/// A written cue is its lines with line feeds between them.
pub proof fn lemma_cue_text(cue: CueView)
    requires
        is_trimmed(cue.payload),
    ensures
        format_cue(cue) == join(head_lines(cue) + split(cue.payload, line_feed()), line_feed()),
{
    reveal(format_cue);
    let head = head_lines(cue);
    let rest = split(cue.payload, line_feed());
    let timing = format_timing(cue.start, cue.end, cue.settings);
    lemma_trim_trimmed(cue.payload);
    lemma_join_split(cue.payload, line_feed());
    lemma_join_concat(head, rest, line_feed());
    match cue.identifier {
        Some(id) => {
            let first = seq![id];
            assert(first.len() == 1 && first[0] == id);
            assert(join(first, line_feed()) == id);
            assert(first.push(timing) =~= head);
            lemma_join_push(first, line_feed(), timing);
            assert(join(head, line_feed()) =~= id + line_feed() + timing);
            assert(format_cue(cue) =~= join(head, line_feed()) + line_feed() + cue.payload);
        },
        None => {
            assert(join(head, line_feed()) =~= timing);
            assert(format_cue(cue) =~= join(head, line_feed()) + line_feed() + cue.payload);
        },
    }
}

/// The lines of a written cue are the lines of the cue.
pub proof fn lemma_cue_lines(cue: CueView)
    requires
        readable_cue(cue),
    ensures
        text::lines(format_cue(cue)) == cue_block(cue),
        text::lines(join(cue_block(cue), line_feed())) == cue_block(cue),
{
    let head = head_lines(cue);
    let parts = split(cue.payload, line_feed());
    let all = head + parts;
    let block = cue_block(cue);
    lemma_cue_text(cue);
    lemma_cue_plain_lines(cue);
    assert forall|i: int| 0 <= i < block.len() implies lacks(#[trigger] block[i], '\n') by {
        assert(is_plain_line(block[i]));
    }
    assert forall|i: int| 0 <= i < block.len() - 1 implies ends_plainly(#[trigger] block[i]) by {
        assert(is_plain_line(block[i]));
    }
    lemma_lines_join(block);
    if cue.payload.len() > 0 {
        assert(all == block);
    } else {
        lemma_absent(cue.payload, line_feed(), 0);
        assert(parts =~= seq![cue.payload]);
        assert(all =~= block.push(cue.payload));
        assert(all.drop_last() =~= block);
        assert forall|i: int| 0 <= i < all.len() implies lacks(#[trigger] all[i], '\n') by {
            if i < block.len() {
                assert(all[i] == block[i]);
            }
        }
        assert forall|i: int| 0 <= i < all.len() - 1 implies ends_plainly(#[trigger] all[i]) by {
            assert(all[i] == block[i]);
            assert(is_plain_line(block[i]));
        }
        lemma_lines_join(all);
    }
}

/// A cue that is written and read again is the same cue, for every cue as
/// reading gives it that has no carriage return at the end of its identifier
/// or of a line of its payload.
pub proof fn lemma_cue_round_trip(cue: CueView)
    requires
        readable_cue(cue),
    ensures
        parse_cue(format_cue(cue)) == Ok::<CueView, Failure>(cue),
        parse_cue(join(cue_block(cue), line_feed())) == Ok::<CueView, Failure>(cue),
{
    reveal(parse_cue);
    lemma_cue_lines(cue);
    lemma_parse_cue_block(cue);
}

} // verus!
