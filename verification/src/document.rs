//! Documents: the header, and the cues in their order.

use crate::cue::{CueView, VttCue, format_cue, parse_cue, parse_cue_chars};
use crate::error::{Failure, VttParseError};
use crate::header::{
    Entry, HeaderView, VttHeader, entry_views, format_entries, format_entry, insert_entry,
    parse_metadata, read_metadata,
};
use crate::runs::{leading, lemma_leading_is, runs};
use crate::scan;
use crate::scan::views;
use crate::text::{blank, is_blank_line, line_feed, space};
use crate::text;
use crate::text_laws::lemma_join_push;
use vstd::prelude::*;
use vstd::slice::slice_subrange;
use vstd::string::StringExecFns;

verus! {

/// A WebVTT document.
#[derive(Debug, Clone, PartialEq, Eq)]
pub struct WebVtt {
    pub header: VttHeader,
    /// The cues, in the order in which they are written; the times of the
    /// cues do not change that order.
    pub cues: Vec<VttCue>,
}

/// A `WebVtt` as a mathematical value.
pub struct WebVttView {
    pub header: HeaderView,
    pub cues: Seq<CueView>,
}

/// Cues as mathematical values.
pub open spec fn cue_views(cues: Seq<VttCue>) -> Seq<CueView> {
    Seq::new(cues.len(), |i: int| cues[i]@)
}

impl View for WebVtt {
    type V = WebVttView;

    open spec fn view(&self) -> WebVttView {
        WebVttView { header: self.header@, cues: cue_views(self.cues@) }
    }
}

/// The word that a document begins with.
pub open spec fn marker() -> Seq<char> {
    seq!['W', 'E', 'B', 'V', 'T', 'T']
}

/// What stands between two cues: the end of a line and an empty line.
pub open spec fn cue_gap() -> Seq<char> {
    seq!['\n', '\n']
}

/// The description that the first line gives: what follows the marker,
/// without the whitespace around it, and none where nothing but whitespace
/// follows the marker. `line` is a first line, which begins with the marker.
pub open spec fn parse_description(line: Seq<char>) -> Option<Seq<char>> {
    let rest = text::trim(line.skip(marker().len() as int));
    if rest.len() > 0 {
        Some(rest)
    } else {
        None
    }
}

/// The cues with more cues after them, where there was no failure.
pub open spec fn extend_cues(cues: Seq<CueView>, more: Result<Seq<CueView>, Failure>) -> Result<
    Seq<CueView>,
    Failure,
> {
    match more {
        Ok(others) => Ok(cues + others),
        Err(e) => Err(e),
    }
}

/// The cues that the blocks stand for, each block being the lines of one cue;
/// the first block that is no cue decides the failure.
pub open spec fn parse_cues(blocks: Seq<Seq<Seq<char>>>) -> Result<Seq<CueView>, Failure>
    decreases blocks.len(),
{
    if blocks.len() == 0 {
        Ok(Seq::empty())
    } else {
        match parse_cue(text::join(blocks[0], line_feed())) {
            Err(e) => Err(e),
            Ok(cue) => extend_cues(seq![cue], parse_cues(blocks.drop_first())),
        }
    }
}

/// The document that `s` stands for. The first line begins with `WEBVTT`,
/// and nothing stands before that word, not even whitespace; a text without
/// such a first line is the failure `MissingHeader`, whatever else it holds.
/// The lines that follow the first, up to the first blank line, are the
/// entries of the header. The rest is cues: each run of lines between blank
/// lines is one cue. The header is read before the cues, and the first failure
/// is the failure of the document.
pub open spec fn parse_document(s: Seq<char>) -> Result<WebVttView, Failure> {
    let lines = text::lines(s);
    if lines.len() == 0 || !text::starts_with(lines[0], marker()) {
        Err(Failure::MissingHeader)
    } else {
        let rest = lines.skip(1);
        let n = leading(rest, blank(), false) as int;
        match parse_metadata(rest.take(n), Seq::empty()) {
            Err(e) => Err(e),
            Ok(metadata) => match parse_cues(runs(rest.skip(n), blank())) {
                Err(e) => Err(e),
                Ok(cues) => Ok(
                    WebVttView {
                        header: HeaderView { description: parse_description(lines[0]), metadata },
                        cues,
                    },
                ),
            },
        }
    }
}

/// How the first line is written.
pub open spec fn format_first_line(description: Option<Seq<char>>) -> Seq<char> {
    match description {
        Some(d) => marker() + space() + d + line_feed(),
        None => marker() + line_feed(),
    }
}

/// Each cue as it is written.
pub open spec fn cue_texts(cues: Seq<CueView>) -> Seq<Seq<char>> {
    Seq::new(cues.len(), |i: int| format_cue(cues[i]))
}

/// How a document is written: the first line, the entries, an empty line,
/// and the cues with an empty line between each two; nothing follows the
/// last cue.
pub open spec fn format_document(document: WebVttView) -> Seq<char> {
    format_first_line(document.header.description) + format_entries(document.header.metadata)
        + line_feed() + text::join(cue_texts(document.cues), cue_gap())
}

/// What reading a document gave, as a mathematical value.
pub open spec fn document_outcome(r: Result<WebVtt, VttParseError>) -> Result<
    WebVttView,
    Failure,
> {
    match r {
        Ok(document) => Ok(document@),
        Err(e) => Err(e@),
    }
}

/// The characters of the marker.
fn marker_chars() -> (v: Vec<char>)
    ensures
        v@ == marker(),
{
    let v: Vec<char> = vec!['W', 'E', 'B', 'V', 'T', 'T'];
    assert(v@ =~= marker());
    v
}

/// Whether a line holds nothing but whitespace.
fn line_is_blank(line: &[char]) -> (r: bool)
    ensures
        r == is_blank_line(line@),
{
    scan::trim(line).len() == 0
}

/// What reading cues gave, as a mathematical value.
pub open spec fn cues_outcome(r: Result<Vec<VttCue>, VttParseError>) -> Result<
    Seq<CueView>,
    Failure,
> {
    match r {
        Ok(cues) => Ok(cue_views(cues@)),
        Err(e) => Err(e@),
    }
}

/// Finds the next block of lines at or after index `from`: where it starts
/// and where it ends, or nothing where only blank lines are left.
fn next_block(lines: &Vec<&[char]>, from: usize) -> (r: Option<(usize, usize)>)
    requires
        from <= lines@.len(),
    ensures
        match r {
            None => runs(views(lines@).skip(from as int), blank()) == Seq::<
                Seq<Seq<char>>,
            >::empty(),
            Some((a, b)) => from <= a < b <= lines@.len() && runs(
                views(lines@).skip(from as int),
                blank(),
            ) == seq![views(lines@).subrange(a as int, b as int)] + runs(
                views(lines@).skip(b as int),
                blank(),
            ),
        },
{
    let n = lines.len();
    let ghost all = views(lines@);
    let ghost rest = all.skip(from as int);
    let mut a: usize = from;
    while a < n && line_is_blank(lines[a])
        invariant
            from <= a <= n,
            n == lines@.len(),
            all == views(lines@),
            forall|j: int| from <= j < a ==> is_blank_line(#[trigger] all[j]),
        decreases n - a,
    {
        a += 1;
    }
    proof {
        assert forall|j: int| 0 <= j < a - from implies blank()(#[trigger] rest[j]) == true by {
            assert(rest[j] == all[from + j]);
        }
        if a < n {
            assert(rest[a - from] == all[a as int]);
        }
        lemma_leading_is(rest, blank(), true, a - from);
        assert(rest.skip(a - from) =~= all.skip(a as int));
    }
    if a == n {
        return None;
    }
    let mut b: usize = a + 1;
    while b < n && !line_is_blank(lines[b])
        invariant
            a < b <= n,
            n == lines@.len(),
            all == views(lines@),
            forall|j: int| a <= j < b ==> !is_blank_line(#[trigger] all[j]),
        decreases n - b,
    {
        b += 1;
    }
    proof {
        let t = all.skip(a as int);
        assert forall|j: int| 0 <= j < b - a implies blank()(#[trigger] t[j]) == false by {
            assert(t[j] == all[a + j]);
        }
        if b < n {
            assert(t[b - a] == all[b as int]);
        }
        lemma_leading_is(t, blank(), false, b - a);
        assert(t.take(b - a) =~= all.subrange(a as int, b as int));
        assert(t.skip(b - a) =~= all.skip(b as int));
    }
    Some((a, b))
}

/// Reading the cues of a first block and of the blocks after it.
proof fn lemma_parse_cues_first(
    done: Seq<CueView>,
    block: Seq<Seq<char>>,
    others: Seq<Seq<Seq<char>>>,
)
    ensures
        extend_cues(done, parse_cues(seq![block] + others)) == match parse_cue(
            text::join(block, line_feed()),
        ) {
            Err(e) => Err(e),
            Ok(cue) => extend_cues(done.push(cue), parse_cues(others)),
        },
{
    let blocks = seq![block] + others;
    assert(blocks[0] == block);
    assert(blocks.drop_first() =~= others);
    match parse_cue(text::join(block, line_feed())) {
        Err(e) => {},
        Ok(cue) => {
            match parse_cues(others) {
                Ok(more) => {
                    assert(done + (seq![cue] + more) =~= done.push(cue) + more);
                },
                Err(e) => {},
            }
        },
    }
}

/// Reads the cues that the lines from index `from` on hold.
fn read_cues(lines: &Vec<&[char]>, from: usize) -> (r: Result<Vec<VttCue>, VttParseError>)
    requires
        from <= lines@.len(),
    ensures
        cues_outcome(r) == parse_cues(runs(views(lines@).skip(from as int), blank())),
{
    let n = lines.len();
    let ghost all = views(lines@);
    let ghost wanted = parse_cues(runs(all.skip(from as int), blank()));
    let feed: Vec<char> = vec!['\n'];
    assert(feed@ =~= line_feed());
    let mut cues: Vec<VttCue> = Vec::new();
    let mut i: usize = from;
    assert(cue_views(cues@) =~= Seq::<CueView>::empty());
    assert(wanted == extend_cues(cue_views(cues@), wanted)) by {
        match wanted {
            Ok(others) => {
                assert(cue_views(cues@) + others =~= others);
            },
            Err(e) => {},
        }
    }
    loop
        invariant
            from <= i <= n,
            n == lines@.len(),
            all == views(lines@),
            feed@ == line_feed(),
            wanted == parse_cues(runs(all.skip(from as int), blank())),
            wanted == extend_cues(cue_views(cues@), parse_cues(runs(all.skip(i as int), blank()))),
        decreases n - i,
    {
        let ghost done = cue_views(cues@);
        match next_block(lines, i) {
            None => {
                assert(done + Seq::<CueView>::empty() =~= done);
                return Ok(cues);
            },
            Some((a, b)) => {
                proof {
                    lemma_parse_cues_first(
                        done,
                        all.subrange(a as int, b as int),
                        runs(all.skip(b as int), blank()),
                    );
                }
                let text = scan::join_range(lines, a, b, feed.as_slice());
                match parse_cue_chars(text.as_slice()) {
                    Ok(cue) => {
                        cues.push(cue);
                        assert(cue_views(cues@) =~= done.push(cue@));
                    },
                    Err(e) => {
                        return Err(e);
                    },
                }
                i = b;
            },
        }
    }
}

impl WebVtt {
    /// A document without description, entries or cues.
    pub fn new() -> (r: Self)
        ensures
            r@.header.description is None,
            r@.header.metadata == Seq::<Entry>::empty(),
            r@.cues == Seq::<CueView>::empty(),
    {
        let r = WebVtt { header: VttHeader::default(), cues: Vec::new() };
        assert(r@.cues =~= Seq::<CueView>::empty());
        r
    }

    /// Adds a cue after the cues that are there.
    pub fn add_cue(&mut self, cue: VttCue)
        ensures
            final(self)@.cues == old(self)@.cues.push(cue@),
            final(self)@.header == old(self)@.header,
    {
        self.cues.push(cue);
        assert(self@.cues =~= old(self)@.cues.push(cue@));
    }

    /// Gives the key `key` of the header the value `value`. Where the key had
    /// a value, the new one takes its place; else the entry is added after
    /// the others.
    pub fn add_metadata(&mut self, key: &str, value: &str)
        ensures
            final(self)@.header.metadata == insert_entry(
                old(self)@.header.metadata,
                key@,
                value@,
            ),
            final(self)@.header.description == old(self)@.header.description,
            final(self)@.cues == old(self)@.cues,
    {
        self.header.metadata.insert(String::from_str(key), String::from_str(value));
    }

    /// Reads a document. All of it is read or none: the first fault, in
    /// reading order, is returned and nothing else.
    pub fn from_str(s: &str) -> (r: Result<WebVtt, VttParseError>)
        ensures
            document_outcome(r) == parse_document(s@),
    {
        let chars = scan::chars_of(s);
        let lines = scan::lines(chars.as_slice());
        let n = lines.len();
        if n == 0 {
            return Err(VttParseError::MissingHeader);
        }
        let first = lines[0];
        let mark = marker_chars();
        if !scan::starts_with(first, mark.as_slice()) {
            return Err(VttParseError::MissingHeader);
        }
        let after = scan::trim(slice_subrange(first, 6, first.len()));
        let description = if after.len() > 0 {
            Some(scan::string_of(after))
        } else {
            None
        };
        let ghost all = views(lines@);
        let ghost rest = all.skip(1);
        let mut end: usize = 1;
        while end < n && !line_is_blank(lines[end])
            invariant
                1 <= end <= n,
                n == lines@.len(),
                all == views(lines@),
                forall|j: int| 1 <= j < end ==> !is_blank_line(#[trigger] all[j]),
            decreases n - end,
        {
            end += 1;
        }
        proof {
            assert forall|j: int| 0 <= j < end - 1 implies blank()(#[trigger] rest[j]) == false by {
                assert(rest[j] == all[j + 1]);
            }
            if end < n {
                assert(rest[end - 1] == all[end as int]);
            }
            lemma_leading_is(rest, blank(), false, end - 1);
            assert(rest.take(end - 1) =~= all.subrange(1, end as int));
            assert(rest.skip(end - 1) =~= all.skip(end as int));
        }
        let metadata = match read_metadata(&lines, 1, end) {
            Ok(m) => m,
            Err(e) => {
                return Err(e);
            },
        };
        let cues = match read_cues(&lines, end) {
            Ok(c) => c,
            Err(e) => {
                return Err(e);
            },
        };
        Ok(WebVtt { header: VttHeader { description, metadata }, cues })
    }

    /// Appends the first line to `out`.
    fn write_first_line(&self, out: &mut String)
        ensures
            final(out)@ == old(out)@ + format_first_line(self@.header.description),
    {
        let mark = marker_chars();
        scan::push_chars(out, mark.as_slice());
        match &self.header.description {
            Some(d) => {
                out.push(' ');
                out.append(d.as_str());
                out.push('\n');
                assert(out@ =~= old(out)@ + format_first_line(self@.header.description));
            },
            None => {
                out.push('\n');
                assert(out@ =~= old(out)@ + format_first_line(self@.header.description));
            },
        }
    }

    /// Appends the entries of the header to `out`.
    fn write_entries(&self, out: &mut String)
        ensures
            final(out)@ == old(out)@ + format_entries(self@.header.metadata),
    {
        let entries = self.header.metadata.entries();
        let ghost wanted = self@.header.metadata;
        let n = entries.len();
        let mut i: usize = 0;
        assert(out@ =~= old(out)@ + format_entries(wanted.take(0)));
        while i < n
            invariant
                i <= n,
                n == entries@.len(),
                wanted == entry_views(entries@),
                out@ == old(out)@ + format_entries(wanted.take(i as int)),
            decreases n - i,
        {
            let ghost before = out@;
            out.append(entries[i].0.as_str());
            out.push(':');
            out.push(' ');
            out.append(entries[i].1.as_str());
            out.push('\n');
            i += 1;
            proof {
                let done = wanted.take(i as int);
                assert(done.drop_last() =~= wanted.take(i - 1));
                assert(done.last() == wanted[i - 1]);
                assert(out@ =~= before + format_entry(wanted[i - 1]));
            }
        }
        assert(wanted.take(i as int) =~= wanted);
    }

    /// Appends the cue at index `i` to `out`, after an empty line where it is
    /// not the first.
    fn write_cue(&self, out: &mut String, i: usize)
        requires
            i < self.cues@.len(),
        ensures
            final(out)@ == old(out)@ + (if i > 0 {
                cue_gap()
            } else {
                Seq::<char>::empty()
            }) + format_cue(self.cues@[i as int]@),
    {
        if i > 0 {
            out.push('\n');
            out.push('\n');
            assert(out@ =~= old(out)@ + cue_gap());
        } else {
            assert(out@ =~= old(out)@ + Seq::<char>::empty());
        }
        self.cues[i].write_to(out);
    }

    /// Appends the cues to `out`.
    fn write_cues(&self, out: &mut String)
        ensures
            final(out)@ == old(out)@ + text::join(cue_texts(self@.cues), cue_gap()),
    {
        let ghost wanted = cue_texts(self@.cues);
        let n = self.cues.len();
        let mut i: usize = 0;
        assert(out@ =~= old(out)@ + text::join(wanted.take(0), cue_gap()));
        while i < n
            invariant
                i <= n,
                n == self.cues@.len(),
                n == wanted.len(),
                forall|j: int| 0 <= j < n ==> #[trigger] wanted[j] == format_cue(self.cues@[j]@),
                out@ == old(out)@ + text::join(wanted.take(i as int), cue_gap()),
            decreases n - i,
        {
            let ghost before = out@;
            self.write_cue(out, i);
            i += 1;
            proof {
                lemma_join_push(wanted.take(i - 1), cue_gap(), wanted[i - 1]);
                assert(wanted.take(i - 1).push(wanted[i - 1]) =~= wanted.take(i as int));
                assert(out@ =~= old(out)@ + text::join(wanted.take(i as int), cue_gap()));
            }
        }
        assert(wanted.take(i as int) =~= wanted);
    }

    /// Writes the document: the line `WEBVTT`, with the description after it
    /// if there is one; a line `key: value` for each entry of the header, in
    /// the order in which the keys first came; an empty line; the cues, with an
    /// empty line between each two.
    pub fn to_string(&self) -> (r: String)
        ensures
            r@ == format_document(self@),
    {
        let mut out = String::new();
        self.write_first_line(&mut out);
        self.write_entries(&mut out);
        out.push('\n');
        self.write_cues(&mut out);
        assert(out@ =~= format_document(self@));
        out
    }
}

impl Default for WebVtt {
    fn default() -> (r: Self)
        ensures
            r@.header.description is None,
            r@.header.metadata == Seq::<Entry>::empty(),
            r@.cues == Seq::<CueView>::empty(),
    {
        WebVtt::new()
    }
}

impl std::str::FromStr for WebVtt {
    type Err = VttParseError;

    /// Reads a document; this is what `str::parse` calls.
    fn from_str(s: &str) -> (r: Result<Self, Self::Err>)
        ensures
            document_outcome(r) == parse_document(s@),
    {
        WebVtt::from_str(s)
    }
}

} // verus!
