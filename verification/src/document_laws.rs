//! A document that is written and read again is the same document.

use crate::cue::{CueView, format_cue};
use crate::cue_laws::{
    canonical_cue, cue_block, head_lines, is_block_line, lemma_cue_block, lemma_cue_round_trip,
    lemma_cue_text, payload_lines,
};
use crate::document::{
    WebVttView, cue_gap, cue_texts, format_document, format_first_line, marker, parse_cues,
    parse_description, parse_document,
};
use crate::error::Failure;
use crate::header::{
    Entry, HeaderView, distinct_keys, format_entries, format_entry, format_header,
    format_header_entries, format_header_entry, has_key, insert_entry, key_end, key_index,
    parse_header, parse_metadata, parse_metadata_line,
};
use crate::runs::{
    is_run, leading, lemma_leading_is, lemma_runs_after, lemma_runs_none, lemma_runs_push, runs,
};
use crate::text::{blank, colon, is_blank_line, join, lacks, line_feed, space, split, trim};
use crate::text;
use crate::text_laws::{
    all_lack, ends_plainly, is_trimmed, lemma_absent, lemma_concat_lacks, lemma_find_after,
    lemma_join_concat, lemma_join_first, lemma_join_push, lemma_lines_join, lemma_mark,
    lemma_not_blank, lemma_trim_around, lemma_trim_trimmed,
};
use vstd::prelude::*;

verus! {

/// The first line of a document, without the line feed.
pub open spec fn first_line(description: Option<Seq<char>>) -> Seq<char> {
    match description {
        Some(d) => marker() + space() + d,
        None => marker(),
    }
}

/// The line of an entry, without the line feed.
pub open spec fn entry_line(entry: Entry) -> Seq<char> {
    entry.0 + key_end() + entry.1
}

/// The lines of the entries.
pub open spec fn entry_lines(entries: Seq<Entry>) -> Seq<Seq<char>> {
    Seq::new(entries.len(), |i: int| entry_line(entries[i]))
}

/// An empty line.
pub open spec fn empty_line() -> Seq<char> {
    Seq::empty()
}

/// The lines that a written cue is made of: the lines of the cue, and an
/// empty line after them where the payload is empty.
pub open spec fn cue_lines(cue: CueView) -> Seq<Seq<char>> {
    head_lines(cue) + split(cue.payload, line_feed())
}

/// The lines that the written cues are made of, with an empty line between
/// each two cues; one empty line where there are no cues.
pub open spec fn all_cue_lines(cues: Seq<CueView>) -> Seq<Seq<char>>
    decreases cues.len(),
{
    if cues.len() == 0 {
        seq![empty_line()]
    } else if cues.len() == 1 {
        cue_lines(cues[0])
    } else {
        cue_lines(cues[0]) + seq![empty_line()] + all_cue_lines(cues.drop_first())
    }
}

/// The lines before the cues: the first line, the lines of the entries, and
/// an empty line.
pub open spec fn header_lines(header: HeaderView) -> Seq<Seq<char>> {
    seq![first_line(header.description)] + entry_lines(header.metadata) + seq![empty_line()]
}

/// The lines that a written document is made of.
pub open spec fn document_lines(document: WebVttView) -> Seq<Seq<char>> {
    header_lines(document.header) + all_cue_lines(document.cues)
}

/// The block of each cue.
pub open spec fn cue_blocks(cues: Seq<CueView>) -> Seq<Seq<Seq<char>>> {
    Seq::new(cues.len(), |i: int| cue_block(cues[i]))
}

/// A description as reading gives it.
pub open spec fn canonical_description(description: Option<Seq<char>>) -> bool {
    match description {
        Some(d) => d.len() > 0 && is_trimmed(d) && lacks(d, '\n'),
        None => true,
    }
}

/// An entry as reading gives it.
pub open spec fn canonical_entry(entry: Entry) -> bool {
    &&& is_trimmed(entry.0)
    &&& lacks(entry.0, ':')
    &&& lacks(entry.0, '\n')
    &&& is_trimmed(entry.1)
    &&& lacks(entry.1, '\n')
}

/// Entries as reading gives them.
pub open spec fn canonical_entries(entries: Seq<Entry>) -> bool {
    forall|i: int| 0 <= i < entries.len() ==> canonical_entry(#[trigger] entries[i])
}

/// A header as reading gives it.
pub open spec fn canonical_header(header: HeaderView) -> bool {
    &&& canonical_description(header.description)
    &&& canonical_entries(header.metadata)
    &&& distinct_keys(header.metadata)
}

/// Cues as reading a document gives them, and without a carriage return at
/// the end of an identifier or of a line of a payload.
pub open spec fn canonical_cues(cues: Seq<CueView>) -> bool {
    forall|i: int| 0 <= i < cues.len() ==> canonical_cue(#[trigger] cues[i])
}

/// A document as reading gives it, and without a carriage return at the end
/// of an identifier or of a line of a payload.
pub open spec fn canonical_document(document: WebVttView) -> bool {
    canonical_header(document.header) && canonical_cues(document.cues)
}

/// The lines, each with a line feed after it.
pub open spec fn terminated(ls: Seq<Seq<char>>) -> Seq<char>
    decreases ls.len(),
{
    if ls.len() == 0 {
        Seq::empty()
    } else {
        terminated(ls.drop_last()) + ls.last() + line_feed()
    }
}

/// Lines with a line feed after each, and then lines with line feeds between
/// them, are all the lines with line feeds between them.
proof fn lemma_terminated_join(ls: Seq<Seq<char>>, rest: Seq<Seq<char>>)
    requires
        rest.len() >= 1,
    ensures
        terminated(ls) + join(rest, line_feed()) == join(ls + rest, line_feed()),
    decreases ls.len(),
{
    if ls.len() == 0 {
        assert(ls + rest =~= rest);
        assert(terminated(ls) + join(rest, line_feed()) =~= join(rest, line_feed()));
    } else {
        let front = ls.drop_last();
        let more = seq![ls.last()] + rest;
        lemma_join_first(more, line_feed());
        assert(more.drop_first() =~= rest);
        assert(more[0] == ls.last());
        lemma_terminated_join(front, more);
        assert(front + more =~= ls + rest);
        assert(terminated(ls) + join(rest, line_feed()) =~= terminated(front) + join(more, line_feed()));
    }
}

/// One more line with a line feed after it.
proof fn lemma_terminated_push(ls: Seq<Seq<char>>, line: Seq<char>)
    ensures
        terminated(ls.push(line)) == terminated(ls) + line + line_feed(),
{
    assert(ls.push(line).drop_last() =~= ls);
}

/// One line with a line feed after it, before the others.
proof fn lemma_terminated_first(line: Seq<char>, ls: Seq<Seq<char>>)
    ensures
        terminated(seq![line] + ls) == line + line_feed() + terminated(ls),
    decreases ls.len(),
{
    let all = seq![line] + ls;
    if ls.len() == 0 {
        assert(all.drop_last() =~= Seq::<Seq<char>>::empty());
        assert(terminated(all.drop_last()) =~= Seq::<char>::empty());
        assert(terminated(all) =~= line + line_feed() + terminated(ls));
    } else {
        lemma_terminated_first(line, ls.drop_last());
        assert(all.drop_last() =~= seq![line] + ls.drop_last());
        assert(all.last() == ls.last());
        assert(terminated(all) =~= line + line_feed() + terminated(ls));
    }
}

/// The written entries are their lines with a line feed after each.
proof fn lemma_entries_text(entries: Seq<Entry>)
    ensures
        format_entries(entries) == terminated(entry_lines(entries)),
    decreases entries.len(),
{
    let ls = entry_lines(entries);
    if entries.len() > 0 {
        lemma_entries_text(entries.drop_last());
        assert(ls.drop_last() =~= entry_lines(entries.drop_last()));
        assert(ls.last() == entry_line(entries.last()));
        assert(format_entry(entries.last()) =~= ls.last() + line_feed());
        assert(format_entries(entries) =~= terminated(ls));
    }
}

/// The lines of the written cues are one line at least.
proof fn lemma_all_cue_lines_len(cues: Seq<CueView>)
    ensures
        all_cue_lines(cues).len() >= 1,
    decreases cues.len(),
{
    if cues.len() >= 1 {
        assert(head_lines(cues[0]).len() >= 1);
    }
}

/// The written cues, with an empty line between each two, are their lines
/// with line feeds between them.
proof fn lemma_cues_text(cues: Seq<CueView>)
    requires
        forall|i: int| 0 <= i < cues.len() ==> is_trimmed((#[trigger] cues[i]).payload),
    ensures
        join(cue_texts(cues), cue_gap()) == join(all_cue_lines(cues), line_feed()),
    decreases cues.len(),
{
    let texts = cue_texts(cues);
    if cues.len() == 0 {
        let one = seq![empty_line()];
        assert(one.len() == 1 && one[0] == empty_line());
        assert(join(all_cue_lines(cues), line_feed()) =~= Seq::<char>::empty());
        assert(join(texts, cue_gap()) =~= Seq::<char>::empty());
    } else if cues.len() == 1 {
        lemma_cue_text(cues[0]);
        assert(texts.len() == 1 && texts[0] == format_cue(cues[0]));
    } else {
        let rest = cues.drop_first();
        let first = cue_lines(cues[0]);
        let gapped = first.push(empty_line());
        lemma_cue_text(cues[0]);
        assert forall|i: int| 0 <= i < rest.len() implies is_trimmed((#[trigger] rest[i]).payload) by {
            assert(rest[i] == cues[i + 1]);
        }
        lemma_cues_text(rest);
        lemma_all_cue_lines_len(rest);
        lemma_join_first(texts, cue_gap());
        assert(texts.drop_first() =~= cue_texts(rest));
        assert(texts[0] == format_cue(cues[0]));
        lemma_join_push(first, line_feed(), empty_line());
        assert(first.len() >= 1) by {
            assert(head_lines(cues[0]).len() >= 1);
        }
        lemma_join_concat(gapped, all_cue_lines(rest), line_feed());
        assert(gapped + all_cue_lines(rest) =~= all_cue_lines(cues));
        assert(cue_gap() =~= line_feed() + line_feed());
        assert(join(texts, cue_gap()) =~= join(first, line_feed()) + line_feed() + empty_line() + line_feed()
            + join(all_cue_lines(rest), line_feed()));
    }
}

/// A written document is its lines with line feeds between them.
pub proof fn lemma_document_text(document: WebVttView)
    requires
        canonical_document(document),
    ensures
        format_document(document) == join(document_lines(document), line_feed()),
{
    let header = document.header;
    let first = first_line(header.description);
    let entries = entry_lines(header.metadata);
    let head = header_lines(header);
    let rest = all_cue_lines(document.cues);
    assert forall|i: int| 0 <= i < document.cues.len() implies is_trimmed(
        (#[trigger] document.cues[i]).payload,
    ) by {
        assert(canonical_cue(document.cues[i]));
    }
    lemma_cues_text(document.cues);
    lemma_all_cue_lines_len(document.cues);
    lemma_entries_text(header.metadata);
    lemma_terminated_first(first, entries);
    lemma_terminated_push(seq![first] + entries, empty_line());
    assert(head =~= (seq![first] + entries).push(empty_line()));
    assert(format_first_line(header.description) =~= first + line_feed());
    assert(terminated(head) =~= format_first_line(header.description) + format_entries(
        header.metadata,
    ) + line_feed());
    lemma_terminated_join(head, rest);
}

/// The line of an entry is read as the entry.
proof fn lemma_entry_line(entry: Entry)
    requires
        canonical_entry(entry),
    ensures
        parse_metadata_line(entry_line(entry)) == Ok::<Entry, Failure>(entry),
        !is_blank_line(entry_line(entry)),
        lacks(entry_line(entry), '\n'),
        ends_plainly(entry_line(entry)),
{
    let key = entry.0;
    let value = entry.1;
    let line = entry_line(entry);
    let nothing = Seq::<char>::empty();
    let head = key + colon();
    assert(key_end() =~= colon() + space());
    assert(line =~= head + space() + value);
    assert(line[key.len() as int] == ':');
    lemma_not_blank(line, key.len() as int);
    lemma_concat_lacks(key, key_end(), '\n');
    lemma_concat_lacks(key + key_end(), value, '\n');
    // what is left of the line after trimming
    let rest = if value.len() == 0 {
        nothing
    } else {
        space() + value
    };
    let t = head + rest;
    assert(is_trimmed(t)) by {
        if key.len() > 0 {
            assert(t[0] == key[0]);
        } else {
            assert(t[0] == ':');
        }
        if value.len() > 0 {
            assert(t.last() == value.last());
        } else {
            assert(t.last() == ':');
        }
    }
    if value.len() == 0 {
        lemma_trim_around(nothing, t, space());
        assert(nothing + t + space() =~= line);
    } else {
        lemma_trim_trimmed(t);
        assert(t =~= line);
        assert(line.last() == value.last());
    }
    assert(trim(line) == t);
    // the key and the value
    assert(t =~= key + colon() + rest);
    lemma_find_after(key, colon(), rest);
    assert(t.take(key.len() as int) =~= key);
    assert(t.skip(key.len() as int + 1) =~= rest);
    lemma_trim_trimmed(key);
    if value.len() == 0 {
        lemma_trim_trimmed(rest);
        assert(value =~= nothing);
    } else {
        lemma_trim_around(space(), value, nothing);
        assert(space() + value + nothing =~= rest);
    }
    assert(text::find(t, colon()) == Some(key.len() as int));
    assert(trim(t.take(key.len() as int)) == key);
    assert(trim(t.skip(key.len() as int + 1)) == value);
    assert(entry == (key, value));
}

/// A key that no entry has is found nowhere.
proof fn lemma_key_absent(entries: Seq<Entry>, key: Seq<char>)
    requires
        forall|i: int| 0 <= i < entries.len() ==> (#[trigger] entries[i]).0 != key,
    ensures
        key_index(entries, key) == entries.len(),
        insert_entry(entries, key, Seq::<char>::empty()).len() == entries.len() + 1,
{
    assert forall|i: int| 0 <= i < entries.len() implies has_key(key)(#[trigger] entries[i])
        == false by {
        assert(entries[i].0 != key);
    }
    lemma_leading_is(entries, has_key(key), false, entries.len() as int);
}

/// The lines of entries are read as the entries, after those that were
/// there before.
proof fn lemma_parse_entry_lines(before: Seq<Entry>, entries: Seq<Entry>)
    requires
        canonical_entries(entries),
        distinct_keys(before + entries),
    ensures
        parse_metadata(entry_lines(entries), before) == Ok::<Seq<Entry>, Failure>(
            before + entries,
        ),
    decreases entries.len(),
{
    let ls = entry_lines(entries);
    let all = before + entries;
    if entries.len() == 0 {
        assert(all =~= before);
    } else {
        let entry = entries[0];
        let rest = entries.drop_first();
        assert(canonical_entry(entry));
        lemma_entry_line(entry);
        assert(ls[0] == entry_line(entry));
        assert(ls.drop_first() =~= entry_lines(rest));
        assert forall|i: int| 0 <= i < before.len() implies (#[trigger] before[i]).0
            != entry.0 by {
            assert(all[i] == before[i]);
            assert(all[before.len() as int] == entry);
            assert(all[i].0 != all[before.len() as int].0);
        }
        lemma_key_absent(before, entry.0);
        let next = insert_entry(before, entry.0, entry.1);
        assert(next =~= before.push(entry));
        assert(next + rest =~= all);
        assert forall|i: int| 0 <= i < rest.len() implies canonical_entry(#[trigger] rest[i]) by {
            assert(rest[i] == entries[i + 1]);
        }
        lemma_parse_entry_lines(next, rest);
    }
}

/// The blocks of cues are read as the cues.
proof fn lemma_parse_cue_blocks(cues: Seq<CueView>)
    requires
        canonical_cues(cues),
    ensures
        parse_cues(cue_blocks(cues)) == Ok::<Seq<CueView>, Failure>(cues),
    decreases cues.len(),
{
    let blocks = cue_blocks(cues);
    if cues.len() == 0 {
        assert(cues =~= Seq::<CueView>::empty());
    } else {
        let rest = cues.drop_first();
        assert(canonical_cue(cues[0]));
        lemma_cue_round_trip(cues[0]);
        assert(blocks[0] == cue_block(cues[0]));
        assert(blocks.drop_first() =~= cue_blocks(rest));
        assert forall|i: int| 0 <= i < rest.len() implies canonical_cue(#[trigger] rest[i]) by {
            assert(rest[i] == cues[i + 1]);
        }
        lemma_parse_cue_blocks(rest);
        assert(seq![cues[0]] + rest =~= cues);
    }
}

/// The lines that a written cue is made of are its block, and an empty line
/// after it where the payload is empty.
proof fn lemma_cue_lines_block(cue: CueView)
    requires
        canonical_cue(cue),
    ensures
        cue_lines(cue) == cue_block(cue) + (if cue.payload.len() == 0 {
            seq![empty_line()]
        } else {
            Seq::<Seq<char>>::empty()
        }),
        is_run(cue_block(cue), blank()),
{
    let block = cue_block(cue);
    lemma_cue_block(cue);
    assert forall|i: int| 0 <= i < block.len() implies !blank()(#[trigger] block[i]) by {
        assert(is_block_line(block[i]));
    }
    if cue.payload.len() == 0 {
        lemma_absent(cue.payload, line_feed(), 0);
        assert(cue.payload =~= empty_line());
        assert(split(cue.payload, line_feed()) =~= seq![empty_line()]);
        assert(payload_lines(cue.payload) =~= Seq::<Seq<char>>::empty());
        assert(cue_lines(cue) =~= block + seq![empty_line()]);
    } else {
        assert(cue_lines(cue) =~= block + Seq::<Seq<char>>::empty());
    }
}

/// An empty line is blank.
proof fn lemma_empty_line_blank()
    ensures
        is_blank_line(empty_line()),
        blank()(empty_line()),
{
    lemma_trim_trimmed(empty_line());
}

/// What follows the block of the first cue among the lines of the written
/// cues.
spec fn after_first_block(cues: Seq<CueView>) -> Seq<Seq<char>> {
    let pad = if cues[0].payload.len() == 0 {
        seq![empty_line()]
    } else {
        Seq::<Seq<char>>::empty()
    };
    if cues.len() == 1 {
        pad
    } else {
        pad + seq![empty_line()] + all_cue_lines(cues.drop_first())
    }
}

/// The lines of the written cues begin with the block of the first cue;
/// what follows is nothing, or begins with an empty line.
proof fn lemma_first_block(cues: Seq<CueView>)
    requires
        cues.len() >= 1,
        canonical_cue(cues[0]),
    ensures
        all_cue_lines(cues) == cue_block(cues[0]) + after_first_block(cues),
        is_run(cue_block(cues[0]), blank()),
        after_first_block(cues).len() > 0 ==> after_first_block(cues)[0] == empty_line(),
        cues.len() == 1 ==> forall|i: int|
            0 <= i < after_first_block(cues).len() ==> #[trigger] after_first_block(cues)[i]
                == empty_line(),
        cues.len() >= 2 ==> after_first_block(cues) == (if cues[0].payload.len() == 0 {
            seq![empty_line(), empty_line()]
        } else {
            seq![empty_line()]
        }) + all_cue_lines(cues.drop_first()),
{
    lemma_cue_lines_block(cues[0]);
    let block = cue_block(cues[0]);
    let tail = after_first_block(cues);
    assert(all_cue_lines(cues) =~= block + tail);
    if cues.len() >= 2 {
        assert(tail =~= (if cues[0].payload.len() == 0 {
            seq![empty_line(), empty_line()]
        } else {
            seq![empty_line()]
        }) + all_cue_lines(cues.drop_first()));
    }
}

/// The runs of the lines of the written cues, after blank lines, are the
/// blocks of the cues.
proof fn lemma_cue_runs(gap: Seq<Seq<char>>, cues: Seq<CueView>)
    requires
        forall|i: int| 0 <= i < gap.len() ==> blank()(#[trigger] gap[i]),
        canonical_cues(cues),
    ensures
        runs(gap + all_cue_lines(cues), blank()) == cue_blocks(cues),
    decreases cues.len(),
{
    let all = gap + all_cue_lines(cues);
    lemma_empty_line_blank();
    if cues.len() == 0 {
        assert forall|i: int| 0 <= i < all.len() implies blank()(#[trigger] all[i]) by {
            if i < gap.len() {
                assert(all[i] == gap[i]);
            }
        }
        lemma_runs_none(all, blank());
        assert(cue_blocks(cues) =~= Seq::<Seq<Seq<char>>>::empty());
    } else {
        let rest = cues.drop_first();
        let block = cue_block(cues[0]);
        let tail = after_first_block(cues);
        assert(canonical_cue(cues[0]));
        lemma_first_block(cues);
        lemma_runs_after(gap, block, tail, blank());
        if cues.len() == 1 {
            assert forall|i: int| 0 <= i < tail.len() implies blank()(#[trigger] tail[i]) by {
                assert(tail[i] == empty_line());
            }
            lemma_runs_none(tail, blank());
            assert(seq![block] + Seq::<Seq<Seq<char>>>::empty() =~= cue_blocks(cues));
        } else {
            let next = if cues[0].payload.len() == 0 {
                seq![empty_line(), empty_line()]
            } else {
                seq![empty_line()]
            };
            assert forall|i: int| 0 <= i < next.len() implies blank()(#[trigger] next[i]) by {
                assert(next[i] == empty_line());
            }
            assert forall|i: int| 0 <= i < rest.len() implies canonical_cue(#[trigger] rest[i]) by {
                assert(rest[i] == cues[i + 1]);
            }
            lemma_cue_runs(next, rest);
            assert(seq![block] + cue_blocks(rest) =~= cue_blocks(cues));
        }
    }
}

/// The lines of the written cues lack the line feed and do not end with a
/// carriage return.
proof fn lemma_all_cue_lines(cues: Seq<CueView>)
    requires
        canonical_cues(cues),
    ensures
        all_lack(all_cue_lines(cues), '\n'),
        forall|i: int|
            0 <= i < all_cue_lines(cues).len() ==> ends_plainly(#[trigger] all_cue_lines(cues)[i]),
    decreases cues.len(),
{
    let all = all_cue_lines(cues);
    if cues.len() >= 1 {
        let cue = cues[0];
        let block = cue_block(cue);
        let first = cue_lines(cue);
        assert(canonical_cue(cue));
        lemma_cue_lines_block(cue);
        lemma_cue_block(cue);
        assert forall|i: int| 0 <= i < first.len() implies lacks(#[trigger] first[i], '\n')
            && ends_plainly(first[i]) by {
            if i < block.len() {
                assert(first[i] == block[i]);
                assert(is_block_line(block[i]));
            } else {
                assert(first[i] == empty_line());
            }
        }
        if cues.len() >= 2 {
            let rest = cues.drop_first();
            assert forall|i: int| 0 <= i < rest.len() implies canonical_cue(#[trigger] rest[i]) by {
                assert(rest[i] == cues[i + 1]);
            }
            lemma_all_cue_lines(rest);
            let others = all_cue_lines(rest);
            assert forall|i: int| 0 <= i < all.len() implies lacks(#[trigger] all[i], '\n')
                && ends_plainly(all[i]) by {
                if i < first.len() {
                    assert(all[i] == first[i]);
                } else if i == first.len() {
                    assert(all[i] == empty_line());
                } else {
                    assert(all[i] == others[i - first.len() - 1]);
                }
            }
        }
    }
}

/// The first line of a document is read as the marker and the description.
proof fn lemma_first_line(description: Option<Seq<char>>)
    requires
        canonical_description(description),
    ensures
        text::starts_with(first_line(description), marker()),
        parse_description(first_line(description)) == description,
        lacks(first_line(description), '\n'),
        ends_plainly(first_line(description)),
{
    let line = first_line(description);
    let nothing = Seq::<char>::empty();
    assert(marker().len() == 6);
    assert(line[0] == 'W');
    assert(line.subrange(0, 6) =~= marker());
    match description {
        Some(d) => {
            assert(line.last() == d.last());
            assert(line.skip(6) =~= space() + d);
            lemma_trim_around(space(), d, nothing);
            assert(space() + d + nothing =~= space() + d);
            lemma_concat_lacks(marker(), space(), '\n');
            lemma_concat_lacks(marker() + space(), d, '\n');
        },
        None => {
            assert(line.last() == 'T');
            assert(line.skip(6) =~= nothing);
            lemma_trim_trimmed(nothing);
        },
    }
}

/// The lines of a written document are the lines that it was made of,
/// without the last one where that is empty.
proof fn lemma_document_lines(document: WebVttView)
    requires
        canonical_document(document),
    ensures
        text::lines(format_document(document)) == if document_lines(document).last().len() == 0 {
            document_lines(document).drop_last()
        } else {
            document_lines(document)
        },
        document_lines(document).len() >= 3 + document.header.metadata.len(),
{
    let header = document.header;
    let head = header_lines(header);
    let rest = all_cue_lines(document.cues);
    let ls = document_lines(document);
    let entries = entry_lines(header.metadata);
    lemma_document_text(document);
    lemma_first_line(header.description);
    lemma_all_cue_lines(document.cues);
    lemma_all_cue_lines_len(document.cues);
    assert forall|i: int| 0 <= i < ls.len() implies lacks(#[trigger] ls[i], '\n') && ends_plainly(
        ls[i],
    ) by {
        if i == 0 {
            assert(ls[i] == first_line(header.description));
        } else if i <= entries.len() {
            assert(ls[i] == entry_line(header.metadata[i - 1]));
            assert(canonical_entry(header.metadata[i - 1]));
            lemma_entry_line(header.metadata[i - 1]);
        } else if i == entries.len() + 1 {
            assert(ls[i] == empty_line());
        } else {
            assert(ls[i] == rest[i - head.len()]);
        }
    }
    lemma_lines_join(ls);
}

/// The lines of a written document: the first line, the lines of the
/// entries up to the first blank line, and then the blocks of the cues.
proof fn lemma_document_parts(document: WebVttView)
    requires
        canonical_document(document),
    ensures
        text::lines(format_document(document)).len() >= 2 + document.header.metadata.len(),
        text::lines(format_document(document))[0] == first_line(document.header.description),
        leading(text::lines(format_document(document)).skip(1), blank(), false)
            == document.header.metadata.len(),
        text::lines(format_document(document)).skip(1).take(
            document.header.metadata.len() as int,
        ) == entry_lines(document.header.metadata),
        runs(
            text::lines(format_document(document)).skip(1).skip(
                document.header.metadata.len() as int,
            ),
            blank(),
        ) == cue_blocks(document.cues),
{
    let header = document.header;
    let cues = document.cues;
    let made = document_lines(document);
    let ls = text::lines(format_document(document));
    let entries = entry_lines(header.metadata);
    let n = entries.len() as int;
    lemma_document_lines(document);
    lemma_empty_line_blank();
    lemma_all_cue_lines_len(cues);
    assert(made[0] == first_line(header.description));
    let rest = ls.skip(1);
    assert forall|i: int| 0 <= i < n implies blank()(#[trigger] rest[i]) == false by {
        assert(rest[i] == made[i + 1]);
        assert(made[i + 1] == entry_line(header.metadata[i]));
        assert(canonical_entry(header.metadata[i]));
        lemma_entry_line(header.metadata[i]);
    }
    assert(rest[n] == made[n + 1]);
    assert(made[n + 1] == empty_line());
    lemma_leading_is(rest, blank(), false, n);
    assert(rest.take(n) =~= entries) by {
        assert forall|i: int| 0 <= i < n implies #[trigger] rest.take(n)[i] == entries[i] by {
            assert(rest[i] == made[i + 1]);
        }
    }
    let gap = seq![empty_line()];
    let region = gap + all_cue_lines(cues);
    assert(gap[0] == empty_line());
    lemma_cue_runs(gap, cues);
    assert(region =~= made.skip(n + 1));
    if made.last().len() == 0 {
        assert(made.last() =~= empty_line());
        assert(region =~= rest.skip(n).push(empty_line()));
        lemma_runs_push(rest.skip(n), blank(), empty_line());
    } else {
        assert(region =~= rest.skip(n));
    }
}

/// A document that is written and read again is the same document, for
/// every document as reading gives it that has no carriage return at the end
/// of an identifier or of a line of a payload.
pub proof fn lemma_document_round_trip(document: WebVttView)
    requires
        canonical_document(document),
    ensures
        parse_document(format_document(document)) == Ok::<WebVttView, Failure>(document),
{
    let header = document.header;
    let nothing = Seq::<Entry>::empty();
    lemma_document_parts(document);
    lemma_first_line(header.description);
    assert(nothing + header.metadata =~= header.metadata);
    lemma_parse_entry_lines(nothing, header.metadata);
    lemma_parse_cue_blocks(document.cues);
}

/// A text without a first line, or whose first line does not begin with
/// `WEBVTT`, is no document, and the failure says so whatever else the text
/// holds.
pub proof fn lemma_missing_marker(s: Seq<char>)
    requires
        text::lines(s).len() == 0 || !text::starts_with(text::lines(s)[0], marker()),
    ensures
        parse_document(s) == Err::<WebVttView, Failure>(Failure::MissingHeader),
{
}

/// A document is read only from a text whose first line begins with
/// `WEBVTT`; every other failure than `MissingHeader` is the failure of such
/// a text too.
pub proof fn lemma_document_has_marker(s: Seq<char>)
    requires
        parse_document(s) != Err::<WebVttView, Failure>(Failure::MissingHeader),
    ensures
        text::lines(s).len() > 0,
        text::starts_with(text::lines(s)[0], marker()),
{
}

/// A header as it can be written by itself and read again: a description
/// without whitespace around it, where there are entries; entries as reading
/// gives them; and not an empty description alone.
pub open spec fn canonical_lone_header(header: HeaderView) -> bool {
    &&& canonical_entries(header.metadata)
    &&& distinct_keys(header.metadata)
    &&& match header.description {
        Some(d) => is_trimmed(d) && lacks(d, '\n') && (d.len() > 0 || header.metadata.len() > 0),
        None => header.metadata.len() == 0,
    }
}

/// A header that is written by itself is its description and the lines of
/// its entries, with line feeds between them.
proof fn lemma_header_text(description: Seq<char>, entries: Seq<Entry>)
    ensures
        description + format_header_entries(entries) == join(
            seq![description] + entry_lines(entries),
            line_feed(),
        ),
    decreases entries.len(),
{
    let first = seq![description];
    let ls = first + entry_lines(entries);
    if entries.len() == 0 {
        assert(ls =~= first);
        assert(first.len() == 1 && first[0] == description);
        assert(description + format_header_entries(entries) =~= description);
    } else {
        let front = first + entry_lines(entries.drop_last());
        lemma_header_text(description, entries.drop_last());
        assert(front.push(entry_line(entries.last())) =~= ls);
        lemma_join_push(front, line_feed(), entry_line(entries.last()));
        assert(format_header_entry(entries.last()) =~= line_feed() + entry_line(entries.last()));
        assert(description + format_header_entries(entries) =~= join(front, line_feed())
            + line_feed() + entry_line(entries.last()));
    }
}

/// A header that is written by itself and read again is the same header,
/// for every header that has a description where it has entries, and whose
/// description and entries are as reading gives them.
pub proof fn lemma_header_round_trip(header: HeaderView)
    requires
        canonical_lone_header(header),
    ensures
        parse_header(format_header(header)) == Ok::<HeaderView, Failure>(header),
{
    let entries = header.metadata;
    let nothing = Seq::<Entry>::empty();
    match header.description {
        Some(d) => {
            let ls = seq![d] + entry_lines(entries);
            lemma_header_text(d, entries);
            assert forall|i: int| 0 <= i < ls.len() implies lacks(#[trigger] ls[i], '\n')
                && ends_plainly(ls[i]) by {
                if i > 0 {
                    assert(ls[i] == entry_line(entries[i - 1]));
                    assert(canonical_entry(entries[i - 1]));
                    lemma_entry_line(entries[i - 1]);
                }
            }
            lemma_lines_join(ls);
            if entries.len() > 0 {
                assert(ls.last() == entry_line(entries.last()));
                assert(canonical_entry(entries[entries.len() - 1]));
                lemma_entry_line(entries.last());
                lemma_mark(ls.last());
            }
            assert(text::lines(format_header(header)) == ls);
            assert(ls[0] == d);
            assert(ls.skip(1) =~= entry_lines(entries));
            lemma_trim_trimmed(d);
            assert(nothing + entries =~= entries);
            lemma_parse_entry_lines(nothing, entries);
        },
        None => {
            assert(entries =~= nothing);
            assert(format_header(header) =~= Seq::<char>::empty());
            lemma_absent(Seq::<char>::empty(), line_feed(), 0);
            assert(text::lines(Seq::<char>::empty()) =~= Seq::<Seq<char>>::empty());
        },
    }
}

} // verus!
