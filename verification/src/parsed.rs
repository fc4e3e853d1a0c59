//! What reading gives: the shape of every document that is read.

use crate::cue::{
    CueView, arrow, format_cue, parse_cue, parse_cue_lines, parse_settings_words, parse_timing,
};
use crate::cue_laws::{
    canonical_cue, canonical_settings, lemma_cue_round_trip, payload_lines, readable_cue,
    readable_identifier, readable_payload,
};
use crate::document::{
    WebVttView, format_document, marker, parse_cues, parse_description, parse_document,
};
use crate::document_laws::{
    canonical_cues, canonical_description, canonical_document, canonical_entries, canonical_entry,
    lemma_document_round_trip,
};
use crate::header::{
    Entry, distinct_keys, insert_entry, key_index, lemma_insert_entry, parse_metadata,
    parse_metadata_line,
};
use crate::runs::{is_run, leading, lemma_leading, lemma_runs_are_runs, lemma_runs_elements, runs};
use crate::settings::no_settings;
use crate::settings_laws::lemma_apply_settings_specifies;
use crate::text::{
    blank, colon, is_blank_line, join, lacks, lemma_find, line_feed, lines, occurs_at, space, split,
    strip_cr, trim,
};
use crate::text;
use crate::text_laws::{
    all_lack, ends_plainly, is_trimmed, lemma_lines_lack, lemma_mark, lemma_split_join,
    lemma_split_lacks, lemma_split_whitespace_join, lemma_strip_cr_blank, lemma_subrange_lacks,
    lemma_trim, lemma_trim_join, lemma_trim_lacks,
};
use crate::timestamp::MAX_MILLIS;
use crate::timestamp_laws::lemma_parsed_timestamp;
use vstd::prelude::*;

verus! {

/// Settings that are read from words specify something.
proof fn lemma_parsed_settings_words(words: Seq<Seq<char>>)
    requires
        forall|i: int| 0 <= i < words.len() ==> text::is_word(#[trigger] words[i]),
        parse_settings_words(words) is Ok,
    ensures
        canonical_settings(parse_settings_words(words)->Ok_0),
{
    let line = join(words, space());
    if line.len() > 0 {
        lemma_split_whitespace_join(words);
        assert(words.len() > 0);
        lemma_apply_settings_specifies(no_settings(), words);
    }
}

/// The times and settings that are read from a timing line: times within
/// the range of timestamps, and settings that specify something.
proof fn lemma_parsed_timing(line: Seq<char>)
    requires
        parse_timing(line) is Ok,
    ensures
        parse_timing(line)->Ok_0.start <= MAX_MILLIS,
        parse_timing(line)->Ok_0.end <= MAX_MILLIS,
        canonical_settings(parse_timing(line)->Ok_0.settings),
{
    let parts = split(line, arrow());
    let words = text::split_whitespace(parts[1]);
    lemma_parsed_timestamp(trim(parts[0]));
    lemma_parsed_timestamp(words[0]);
    lemma_runs_are_runs(parts[1], text::whitespace());
    let rest = words.skip(1);
    assert forall|i: int| 0 <= i < rest.len() implies text::is_word(#[trigger] rest[i]) by {
        assert(rest[i] == words[i + 1]);
        assert(is_run(words[i + 1], text::whitespace()));
    }
    lemma_parsed_settings_words(rest);
}

/// No carriage return stands at the end of the identifier or of a line of
/// the payload.
pub open spec fn plain_ends(cue: CueView) -> bool {
    &&& cue.identifier matches Some(id) ==> ends_plainly(id)
    &&& forall|i: int|
        0 <= i < payload_lines(cue.payload).len() ==> ends_plainly(
            #[trigger] payload_lines(cue.payload)[i],
        )
}

/// The payload that is read from lines that are not blank.
proof fn lemma_parsed_payload(ls: Seq<Seq<char>>)
    requires
        all_lack(ls, '\n'),
        forall|i: int| 0 <= i < ls.len() ==> !is_blank_line(#[trigger] ls[i]),
    ensures
        is_trimmed(trim(join(ls, line_feed()))),
        forall|i: int|
            0 <= i < payload_lines(trim(join(ls, line_feed()))).len() ==> !is_blank_line(
                #[trigger] payload_lines(trim(join(ls, line_feed())))[i],
            ) && lacks(payload_lines(trim(join(ls, line_feed())))[i], '\n'),
{
    let p = trim(join(ls, line_feed()));
    lemma_trim(join(ls, line_feed()));
    if p.len() > 0 {
        assert(ls.len() >= 1) by {
            if ls.len() == 0 {
                assert(join(ls, line_feed()).len() == 0);
            }
        }
        lemma_trim_join(ls);
        lemma_split_lacks(p, '\n');
    }
}

/// The cue that is read from lines is a cue in its readable shape, where no
/// carriage return stands at the end of its identifier or of a line of its
/// payload.
proof fn lemma_read_cue_lines(ls: Seq<Seq<char>>)
    requires
        all_lack(ls, '\n'),
        parse_cue_lines(ls) is Ok,
        plain_ends(parse_cue_lines(ls)->Ok_0),
    ensures
        readable_cue(parse_cue_lines(ls)->Ok_0),
{
    let cue = parse_cue_lines(ls)->Ok_0;
    let named = !text::contains(ls[0], arrow());
    let at: int = if named {
        1
    } else {
        0
    };
    lemma_parsed_timing(ls[at]);
    lemma_trim(join(ls.skip(at + 1), line_feed()));
    if named {
        assert(lacks(ls[0], '\n'));
    }
    assert(readable_identifier(cue.identifier));
    assert(readable_payload(cue.payload));
}

/// The cue that is read from lines that are not blank is a cue in its
/// canonical shape, where no carriage return stands at the end of its
/// identifier or of a line of its payload.
proof fn lemma_parsed_cue_lines(ls: Seq<Seq<char>>)
    requires
        all_lack(ls, '\n'),
        forall|i: int| 0 <= i < ls.len() ==> !is_blank_line(#[trigger] ls[i]),
        parse_cue_lines(ls) is Ok,
        plain_ends(parse_cue_lines(ls)->Ok_0),
    ensures
        canonical_cue(parse_cue_lines(ls)->Ok_0),
{
    let cue = parse_cue_lines(ls)->Ok_0;
    let named = !text::contains(ls[0], arrow());
    let at: int = if named {
        1
    } else {
        0
    };
    lemma_read_cue_lines(ls);
    let rest = ls.skip(at + 1);
    assert forall|i: int| 0 <= i < rest.len() implies lacks(#[trigger] rest[i], '\n')
        && !is_blank_line(rest[i]) by {
        assert(rest[i] == ls[at + 1 + i]);
    }
    lemma_parsed_payload(rest);
    if named {
        assert(!is_blank_line(ls[0]));
    }
}

/// Every cue that is read has the readable shape, where no carriage return
/// stands at the end of its identifier or of a line of its payload.
pub proof fn lemma_parsed_cue(s: Seq<char>)
    requires
        parse_cue(s) is Ok,
        plain_ends(parse_cue(s)->Ok_0),
    ensures
        readable_cue(parse_cue(s)->Ok_0),
{
    reveal(parse_cue);
    lemma_lines_lack(s);
    lemma_read_cue_lines(lines(s));
}

/// A cue that was read from any text is written as a text that is read as
/// the same cue. This holds of every text that is read as a cue in which no
/// carriage return stands at the end of the identifier or of a line of the
/// payload.
pub proof fn lemma_cue_stable(s: Seq<char>)
    requires
        parse_cue(s) is Ok,
        plain_ends(parse_cue(s)->Ok_0),
    ensures
        parse_cue(format_cue(parse_cue(s)->Ok_0)) == parse_cue(s),
{
    lemma_parsed_cue(s);
    lemma_cue_round_trip(parse_cue(s)->Ok_0);
}

/// The lines of lines that are not blank and were joined: as many lines,
/// none of them blank.
proof fn lemma_lines_of_block(block: Seq<Seq<char>>)
    requires
        is_run(block, blank()),
        all_lack(block, '\n'),
    ensures
        all_lack(lines(join(block, line_feed())), '\n'),
        forall|i: int|
            0 <= i < lines(join(block, line_feed())).len() ==> !is_blank_line(
                #[trigger] lines(join(block, line_feed()))[i],
            ),
{
    let text = join(block, line_feed());
    let ls = lines(text);
    lemma_split_join(block, '\n');
    lemma_lines_lack(text);
    assert(!blank()(block[block.len() - 1]));
    lemma_mark(block.last());
    assert forall|i: int| 0 <= i < ls.len() implies !is_blank_line(#[trigger] ls[i]) by {
        assert(!blank()(block[i]));
        if i < block.len() - 1 {
            assert(ls[i] == strip_cr(block[i]));
            lemma_strip_cr_blank(block[i]);
        } else {
            assert(ls[i] == block[i]);
        }
    }
}

/// The cue that is read from a block.
proof fn lemma_parsed_block(block: Seq<Seq<char>>)
    requires
        is_run(block, blank()),
        all_lack(block, '\n'),
        parse_cue(join(block, line_feed())) is Ok,
        plain_ends(parse_cue(join(block, line_feed()))->Ok_0),
    ensures
        canonical_cue(parse_cue(join(block, line_feed()))->Ok_0),
{
    reveal(parse_cue);
    lemma_lines_of_block(block);
    lemma_parsed_cue_lines(lines(join(block, line_feed())));
}

/// The cues that are read from blocks.
proof fn lemma_parsed_cues(blocks: Seq<Seq<Seq<char>>>)
    requires
        forall|i: int|
            0 <= i < blocks.len() ==> is_run(#[trigger] blocks[i], blank()) && all_lack(
                blocks[i],
                '\n',
            ),
        parse_cues(blocks) is Ok,
        forall|i: int|
            0 <= i < parse_cues(blocks)->Ok_0.len() ==> plain_ends(
                #[trigger] parse_cues(blocks)->Ok_0[i],
            ),
    ensures
        parse_cues(blocks)->Ok_0.len() == blocks.len(),
        canonical_cues(parse_cues(blocks)->Ok_0),
    decreases blocks.len(),
{
    let cues = parse_cues(blocks)->Ok_0;
    if blocks.len() > 0 {
        let rest = blocks.drop_first();
        let first = parse_cue(join(blocks[0], line_feed()))->Ok_0;
        let others = parse_cues(rest)->Ok_0;
        assert(cues == seq![first] + others);
        assert(is_run(blocks[0], blank()));
        assert(cues[0] == first);
        assert(plain_ends(cues[0]));
        lemma_parsed_block(blocks[0]);
        assert forall|i: int| 0 <= i < rest.len() implies is_run(#[trigger] rest[i], blank())
            && all_lack(rest[i], '\n') by {
            assert(rest[i] == blocks[i + 1]);
        }
        assert forall|i: int| 0 <= i < others.len() implies plain_ends(#[trigger] others[i]) by {
            assert(others[i] == cues[i + 1]);
        }
        lemma_parsed_cues(rest);
        assert forall|i: int| 0 <= i < cues.len() implies canonical_cue(#[trigger] cues[i]) by {
            if i > 0 {
                assert(cues[i] == others[i - 1]);
            }
        }
    }
}

/// The entry that is read from a line.
proof fn lemma_parsed_entry(line: Seq<char>)
    requires
        lacks(line, '\n'),
        parse_metadata_line(line) is Ok,
    ensures
        canonical_entry(parse_metadata_line(line)->Ok_0),
{
    let t = trim(line);
    let i = text::find(t, colon())->Some_0;
    lemma_find(t, colon());
    lemma_trim_lacks(line, '\n');
    let before = t.take(i);
    let after = t.skip(i + 1);
    lemma_subrange_lacks(t, 0, i, '\n');
    lemma_subrange_lacks(t, i + 1, t.len() as int, '\n');
    assert forall|j: int| 0 <= j < before.len() implies #[trigger] before[j] != ':' by {
        if before[j] == ':' {
            assert(t.subrange(j, j + 1) =~= colon());
            assert(occurs_at(t, colon(), j));
        }
    }
    lemma_trim(before);
    lemma_trim(after);
    lemma_trim_lacks(before, ':');
    lemma_trim_lacks(before, '\n');
    lemma_trim_lacks(after, '\n');
}

/// Giving a key a value keeps entries in their canonical shape.
proof fn lemma_insert_canonical(entries: Seq<Entry>, entry: Entry)
    requires
        canonical_entries(entries),
        canonical_entry(entry),
    ensures
        canonical_entries(insert_entry(entries, entry.0, entry.1)),
{
    let after = insert_entry(entries, entry.0, entry.1);
    lemma_leading(entries, crate::header::has_key(entry.0), false);
    assert forall|i: int| 0 <= i < after.len() implies canonical_entry(#[trigger] after[i]) by {
        if i < entries.len() && i != key_index(entries, entry.0) {
            assert(after[i] == entries[i]);
        } else {
            assert(after[i] == entry);
        }
    }
}

/// The entries that are read from lines.
proof fn lemma_parsed_metadata(ls: Seq<Seq<char>>, before: Seq<Entry>)
    requires
        all_lack(ls, '\n'),
        canonical_entries(before),
        distinct_keys(before),
        parse_metadata(ls, before) is Ok,
    ensures
        canonical_entries(parse_metadata(ls, before)->Ok_0),
        distinct_keys(parse_metadata(ls, before)->Ok_0),
    decreases ls.len(),
{
    if ls.len() > 0 {
        let entry = parse_metadata_line(ls[0])->Ok_0;
        let rest = ls.drop_first();
        assert(lacks(ls[0], '\n'));
        lemma_parsed_entry(ls[0]);
        lemma_insert_canonical(before, entry);
        lemma_insert_entry(before, entry.0, entry.1);
        assert forall|i: int| 0 <= i < rest.len() implies lacks(#[trigger] rest[i], '\n') by {
            assert(rest[i] == ls[i + 1]);
        }
        lemma_parsed_metadata(rest, insert_entry(before, entry.0, entry.1));
    }
}

/// The description that is read from a first line.
proof fn lemma_parsed_description(line: Seq<char>)
    requires
        lacks(line, '\n'),
        text::starts_with(line, marker()),
    ensures
        canonical_description(parse_description(line)),
{
    let rest = line.skip(marker().len() as int);
    lemma_subrange_lacks(line, marker().len() as int, line.len() as int, '\n');
    lemma_trim(rest);
    lemma_trim_lacks(rest, '\n');
}

/// No carriage return stands at the end of the identifier of a cue or of a
/// line of a payload.
pub open spec fn plain_line_ends(document: WebVttView) -> bool {
    forall|i: int| 0 <= i < document.cues.len() ==> plain_ends(#[trigger] document.cues[i])
}

/// Every document that is read has the canonical shape, where no carriage
/// return stands at the end of an identifier or of a line of a payload.
pub proof fn lemma_parsed_document(s: Seq<char>)
    requires
        parse_document(s) is Ok,
        plain_line_ends(parse_document(s)->Ok_0),
    ensures
        canonical_document(parse_document(s)->Ok_0),
{
    let document = parse_document(s)->Ok_0;
    let ls = lines(s);
    let rest = ls.skip(1);
    let n = leading(rest, blank(), false) as int;
    let region = rest.skip(n);
    let blocks = runs(region, blank());
    lemma_lines_lack(s);
    lemma_leading(rest, blank(), false);
    assert(lacks(ls[0], '\n'));
    lemma_parsed_description(ls[0]);
    let head = rest.take(n);
    assert forall|i: int| 0 <= i < head.len() implies lacks(#[trigger] head[i], '\n') by {
        assert(head[i] == ls[i + 1]);
    }
    lemma_parsed_metadata(head, Seq::empty());
    let lacking = |line: Seq<char>| lacks(line, '\n');
    assert forall|i: int| 0 <= i < region.len() implies lacking(#[trigger] region[i]) by {
        assert(region[i] == ls[1 + n + i]);
    }
    lemma_runs_elements(region, blank(), lacking);
    lemma_runs_are_runs(region, blank());
    assert forall|i: int| 0 <= i < blocks.len() implies is_run(#[trigger] blocks[i], blank())
        && all_lack(blocks[i], '\n') by {
        assert forall|j: int| 0 <= j < blocks[i].len() implies lacks(
            #[trigger] blocks[i][j],
            '\n',
        ) by {
            assert(lacking(blocks[i][j]));
        }
    }
    let cues = parse_cues(blocks)->Ok_0;
    assert(document.cues == cues);
    assert forall|i: int| 0 <= i < cues.len() implies plain_ends(#[trigger] cues[i]) by {
        assert(plain_ends(document.cues[i]));
    }
    lemma_parsed_cues(blocks);
}

/// Reading and writing settle after one pass: a document that was read from
/// any text is written as a text that is read as the same document, and so
/// is written as the same text again. This holds of every text that is read
/// as a document in which no carriage return stands at the end of an
/// identifier or of a line of a payload.
pub proof fn lemma_document_stable(s: Seq<char>)
    requires
        parse_document(s) is Ok,
        plain_line_ends(parse_document(s)->Ok_0),
    ensures
        parse_document(format_document(parse_document(s)->Ok_0)) == parse_document(s),
        format_document(parse_document(format_document(parse_document(s)->Ok_0))->Ok_0)
            == format_document(parse_document(s)->Ok_0),
{
    lemma_parsed_document(s);
    lemma_document_round_trip(parse_document(s)->Ok_0);
}

} // verus!
