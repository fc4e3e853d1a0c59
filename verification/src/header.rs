//! The header of a document: a description and metadata.

use crate::error::{Failure, VttParseError};
use crate::runs::{leading, lemma_leading, lemma_leading_is};
use crate::scan;
use crate::scan::views;
use crate::text::{colon, line_feed};
use crate::text;
use vstd::prelude::*;
use vstd::slice::slice_subrange;
use vstd::std_specs::cmp::PartialEqSpecImpl;
use vstd::string::StringExecFns;

verus! {

/// One entry of the metadata: a key and its value.
pub type Entry = (Seq<char>, Seq<char>);

/// Whether an entry has the key `key`.
pub open spec fn has_key(key: Seq<char>) -> spec_fn(Entry) -> bool {
    |e: Entry| e.0 == key
}

/// The index of the entry with the key `key`, or the number of entries where
/// no entry has that key.
pub open spec fn key_index(entries: Seq<Entry>, key: Seq<char>) -> nat {
    leading(entries, has_key(key), false)
}

/// No two entries have the same key.
pub open spec fn distinct_keys(entries: Seq<Entry>) -> bool {
    forall|i: int, j: int|
        0 <= i < j < entries.len() ==> (#[trigger] entries[i]).0 != (#[trigger] entries[j]).0
}

/// The entries after `key` was given the value `value`: the value replaces
/// the one that the key had, where it had one; else the entry goes to the end.
pub open spec fn insert_entry(entries: Seq<Entry>, key: Seq<char>, value: Seq<char>) -> Seq<Entry> {
    let i = key_index(entries, key) as int;
    if i < entries.len() {
        entries.update(i, (key, value))
    } else {
        entries.push((key, value))
    }
}

/// The value of `key`, where it has one.
pub open spec fn lookup(entries: Seq<Entry>, key: Seq<char>) -> Option<Seq<char>> {
    let i = key_index(entries, key) as int;
    if i < entries.len() {
        Some(entries[i].1)
    } else {
        None
    }
}

/// The same keys with the same values, in whatever order.
pub open spec fn same_entries(a: Seq<Entry>, b: Seq<Entry>) -> bool {
    a.len() == b.len() && forall|i: int|
        0 <= i < a.len() ==> lookup(b, (#[trigger] a[i]).0) == Some(a[i].1)
}

/// Entries as mathematical values.
pub open spec fn entry_views(entries: Seq<(String, String)>) -> Seq<Entry> {
    Seq::new(entries.len(), |i: int| (entries[i].0@, entries[i].1@))
}

/// Giving a key a value keeps the keys distinct.
pub proof fn lemma_insert_entry(entries: Seq<Entry>, key: Seq<char>, value: Seq<char>)
    requires
        distinct_keys(entries),
    ensures
        distinct_keys(insert_entry(entries, key, value)),
        lookup(insert_entry(entries, key, value), key) == Some(value),
        key_index(entries, key) < entries.len() ==> insert_entry(entries, key, value).len()
            == entries.len(),
        key_index(entries, key) == entries.len() ==> insert_entry(entries, key, value).len()
            == entries.len() + 1,
{
    let i = key_index(entries, key) as int;
    let after = insert_entry(entries, key, value);
    lemma_leading(entries, has_key(key), false);
    assert forall|a: int, b: int| 0 <= a < b < after.len() implies (#[trigger] after[a]).0 != (
    #[trigger] after[b]).0 by {
        if i < entries.len() {
            assert(entries[i].0 == key);
            assert(entries[a].0 != entries[b].0);
        } else {
            if b < entries.len() {
                assert(entries[a].0 != entries[b].0);
            } else {
                assert(!has_key(key)(entries[a]));
            }
        }
    }
    assert forall|j: int| 0 <= j < i implies has_key(key)(#[trigger] after[j]) == false by {
        assert(!has_key(key)(entries[j]));
    }
    assert(has_key(key)(after[i]));
    lemma_leading_is(after, has_key(key), false, i);
}

/// The metadata of a document: keys with their values, in the order in which
/// the keys first came. No key comes twice.
#[derive(Debug, Eq)]
pub struct VttMetadata {
    entries: Vec<(String, String)>,
}

impl View for VttMetadata {
    type V = Seq<Entry>;

    closed spec fn view(&self) -> Seq<Entry> {
        entry_views(self.entries@)
    }
}

impl VttMetadata {
    /// What holds of all metadata: no key comes twice.
    #[verifier::type_invariant]
    spec fn holds(self) -> bool {
        distinct_keys(entry_views(self.entries@))
    }

    /// Metadata without entries.
    pub fn new() -> (r: Self)
        ensures
            r@ == Seq::<Entry>::empty(),
    {
        let r = VttMetadata { entries: Vec::new() };
        assert(r@ =~= Seq::<Entry>::empty());
        r
    }

    /// The index of the entry with the key `key`, or the number of entries.
    fn index_of(&self, key: &str) -> (i: usize)
        ensures
            i == key_index(self@, key@),
            i <= self.entries@.len(),
            self@.len() == self.entries@.len(),
    {
        let wanted = String::from_str(key);
        let n = self.entries.len();
        let mut i: usize = 0;
        while i < n
            invariant
                i <= n,
                n == self.entries@.len(),
                wanted@ == key@,
                forall|j: int| 0 <= j < i ==> !has_key(key@)(#[trigger] self@[j]),
            decreases n - i,
        {
            if self.entries[i].0 == wanted {
                assert(has_key(key@)(self@[i as int]));
                proof {
                    lemma_leading_is(self@, has_key(key@), false, i as int);
                }
                return i;
            }
            assert(!has_key(key@)(self@[i as int]));
            i += 1;
        }
        proof {
            lemma_leading_is(self@, has_key(key@), false, i as int);
        }
        i
    }

    /// Gives `key` the value `value`. Where the key had a value, the new one
    /// takes its place; else the entry is added after the others.
    pub fn insert(&mut self, key: String, value: String)
        ensures
            final(self)@ == insert_entry(old(self)@, key@, value@),
    {
        proof {
            use_type_invariant(&*self);
            lemma_insert_entry(self@, key@, value@);
        }
        let i = self.index_of(key.as_str());
        let ghost wanted = insert_entry(self@, key@, value@);
        let mut entries: Vec<(String, String)> = Vec::new();
        assert(entry_views(entries@) =~= Seq::<Entry>::empty());
        core::mem::swap(&mut entries, &mut self.entries);
        if i < entries.len() {
            entries.set(i, (key, value));
        } else {
            entries.push((key, value));
        }
        assert(entry_views(entries@) =~= wanted);
        self.entries = entries;
    }

    /// The value of `key`, where it has one.
    pub fn get(&self, key: &str) -> (r: Option<&String>)
        ensures
            lookup(self@, key@) == match r {
                Some(v) => Some(v@),
                None => None::<Seq<char>>,
            },
    {
        let i = self.index_of(key);
        if i < self.entries.len() {
            Some(&self.entries[i].1)
        } else {
            None
        }
    }

    /// The number of entries.
    pub fn len(&self) -> (n: usize)
        ensures
            n == self@.len(),
    {
        self.entries.len()
    }

    /// Whether there are no entries.
    pub fn is_empty(&self) -> (r: bool)
        ensures
            r == (self@.len() == 0),
    {
        self.entries.len() == 0
    }

    /// The entries, in their order.
    pub fn entries(&self) -> (r: &Vec<(String, String)>)
        ensures
            entry_views(r@) == self@,
            distinct_keys(self@),
    {
        proof {
            use_type_invariant(self);
        }
        &self.entries
    }
}

impl PartialEq for VttMetadata {
    /// Whether the two have the same keys with the same values. The order of
    /// the entries makes no difference.
    fn eq(&self, other: &Self) -> (r: bool) {
        let n = self.entries.len();
        if n != other.entries.len() {
            return false;
        }
        let mut i: usize = 0;
        while i < n
            invariant
                i <= n,
                n == self.entries@.len(),
                n == other.entries@.len(),
                forall|j: int| 0 <= j < i ==> lookup(other@, (#[trigger] self@[j]).0) == Some(
                    self@[j].1,
                ),
            decreases n - i,
        {
            match other.get(self.entries[i].0.as_str()) {
                Some(value) => {
                    if *value != self.entries[i].1 {
                        assert(lookup(other@, self@[i as int].0) != Some(self@[i as int].1));
                        return false;
                    }
                },
                None => {
                    assert(lookup(other@, self@[i as int].0) != Some(self@[i as int].1));
                    return false;
                },
            }
            i += 1;
        }
        true
    }
}

impl PartialEqSpecImpl for VttMetadata {
    open spec fn obeys_eq_spec() -> bool {
        true
    }

    open spec fn eq_spec(&self, other: &Self) -> bool {
        same_entries(self@, other@)
    }
}

impl Clone for VttMetadata {
    fn clone(&self) -> (r: Self)
        ensures
            r@ == self@,
    {
        proof {
            use_type_invariant(self);
        }
        let n = self.entries.len();
        let mut entries: Vec<(String, String)> = Vec::new();
        let mut i: usize = 0;
        while i < n
            invariant
                i <= n,
                n == self.entries@.len(),
                entry_views(entries@) == self@.take(i as int),
            decreases n - i,
        {
            let key = self.entries[i].0.clone();
            let value = self.entries[i].1.clone();
            let ghost before = entry_views(entries@);
            entries.push((key, value));
            i += 1;
            assert(entry_views(entries@) =~= before.push((key@, value@)));
            assert(self@[i - 1] == (key@, value@));
            assert(self@.take(i as int) =~= self@.take(i - 1).push(self@[i - 1]));
        }
        assert(self@.take(i as int) =~= self@);
        VttMetadata { entries }
    }
}

impl Default for VttMetadata {
    fn default() -> (r: Self)
        ensures
            r@ == Seq::<Entry>::empty(),
    {
        VttMetadata::new()
    }
}

/// The header of a document.
#[derive(Debug, Clone, PartialEq, Eq)]
pub struct VttHeader {
    /// What the first line says after `WEBVTT`, if it says anything.
    pub description: Option<String>,
    /// The entries of the header block.
    pub metadata: VttMetadata,
}

/// A `VttHeader` as a mathematical value.
pub struct HeaderView {
    pub description: Option<Seq<char>>,
    pub metadata: Seq<Entry>,
}

impl View for VttHeader {
    type V = HeaderView;

    open spec fn view(&self) -> HeaderView {
        HeaderView {
            description: match self.description {
                Some(d) => Some(d@),
                None => None,
            },
            metadata: self.metadata@,
        }
    }
}

impl Default for VttHeader {
    fn default() -> (r: Self)
        ensures
            r@.description is None,
            r@.metadata == Seq::<Entry>::empty(),
    {
        VttHeader { description: None, metadata: VttMetadata::new() }
    }
}

/// What stands between a key and its value.
pub open spec fn key_end() -> Seq<char> {
    seq![':', ' ']
}

/// The entry that a line of the header block stands for: the key is what
/// stands before the first colon, the value what stands after it, each
/// without the whitespace around it.
pub open spec fn parse_metadata_line(line: Seq<char>) -> Result<Entry, Failure> {
    let t = text::trim(line);
    match text::find(t, colon()) {
        None => Err(Failure::InvalidMetadataLine(t)),
        Some(i) => Ok((text::trim(t.take(i)), text::trim(t.skip(i + 1)))),
    }
}

/// The entries after the lines were read, from the first to the last; the
/// first line that is no entry decides the failure.
pub open spec fn parse_metadata(lines: Seq<Seq<char>>, entries: Seq<Entry>) -> Result<
    Seq<Entry>,
    Failure,
>
    decreases lines.len(),
{
    if lines.len() == 0 {
        Ok(entries)
    } else {
        match parse_metadata_line(lines[0]) {
            Err(e) => Err(e),
            Ok(entry) => parse_metadata(
                lines.drop_first(),
                insert_entry(entries, entry.0, entry.1),
            ),
        }
    }
}

/// How one entry is written: a line `key: value`.
pub open spec fn format_entry(entry: Entry) -> Seq<char> {
    entry.0 + key_end() + entry.1 + line_feed()
}

/// How the entries are written: one line each, in their order.
pub open spec fn format_entries(entries: Seq<Entry>) -> Seq<char>
    decreases entries.len(),
{
    if entries.len() == 0 {
        Seq::empty()
    } else {
        format_entries(entries.drop_last()) + format_entry(entries.last())
    }
}

/// Reads one line of the header block.
pub fn read_metadata_line(line: &[char]) -> (r: Result<(String, String), VttParseError>)
    ensures
        parse_metadata_line(line@) == match r {
            Ok(entry) => Ok::<Entry, Failure>((entry.0@, entry.1@)),
            Err(e) => Err::<Entry, Failure>(e@),
        },
{
    let t = scan::trim(line);
    let sep: Vec<char> = vec![':'];
    assert(sep@ =~= colon());
    match scan::find(t, sep.as_slice()) {
        None => Err(VttParseError::InvalidMetadataLine(scan::string_of(t))),
        Some(i) => {
            proof {
                text::lemma_find(t@, colon());
            }
            let n = t.len();
            assert(i + 1 <= n);
            let key = scan::string_of(scan::trim(slice_subrange(t, 0, i)));
            let value = scan::string_of(scan::trim(slice_subrange(t, i + 1, n)));
            Ok((key, value))
        },
    }
}

/// Reads the lines of the header block.
pub fn read_metadata(lines: &Vec<&[char]>, from: usize, to: usize) -> (r: Result<
    VttMetadata,
    VttParseError,
>)
    requires
        from <= to <= lines@.len(),
    ensures
        parse_metadata(views(lines@).subrange(from as int, to as int), Seq::empty()) == match r {
            Ok(m) => Ok::<Seq<Entry>, Failure>(m@),
            Err(e) => Err::<Seq<Entry>, Failure>(e@),
        },
{
    let ghost block = views(lines@).subrange(from as int, to as int);
    let mut metadata = VttMetadata::new();
    let mut i: usize = from;
    assert(block.skip(0) =~= block);
    while i < to
        invariant
            from <= i <= to <= lines@.len(),
            block == views(lines@).subrange(from as int, to as int),
            parse_metadata(block, Seq::empty()) == parse_metadata(
                block.skip(i - from),
                metadata@,
            ),
        decreases to - i,
    {
        let ghost rest = block.skip(i - from);
        assert(rest[0] == lines@[i as int]@);
        assert(rest.drop_first() =~= block.skip(i + 1 - from));
        match read_metadata_line(lines[i]) {
            Ok((key, value)) => {
                metadata.insert(key, value);
            },
            Err(e) => {
                return Err(e);
            },
        }
        i += 1;
    }
    Ok(metadata)
}

/// How one entry of a header stands in the text of the header alone: on a
/// new line, as `key: value`.
pub open spec fn format_header_entry(entry: Entry) -> Seq<char> {
    line_feed() + entry.0 + key_end() + entry.1
}

/// The entries as they stand in the text of a header alone.
pub open spec fn format_header_entries(entries: Seq<Entry>) -> Seq<char>
    decreases entries.len(),
{
    if entries.len() == 0 {
        Seq::empty()
    } else {
        format_header_entries(entries.drop_last()) + format_header_entry(entries.last())
    }
}

/// How a header is written by itself, apart from a document: the
/// description, or nothing where there is none, and then each entry on a line
/// of its own.
pub open spec fn format_header(header: HeaderView) -> Seq<char> {
    (match header.description {
        Some(d) => d,
        None => Seq::empty(),
    }) + format_header_entries(header.metadata)
}

/// The header that a text written by `format_header` stands for: the first
/// line, without the whitespace around it, is the description, and each line
/// after it is an entry. A text without lines is a header without description.
pub open spec fn parse_header(s: Seq<char>) -> Result<HeaderView, Failure> {
    let lines = text::lines(s);
    if lines.len() == 0 {
        Ok(HeaderView { description: None, metadata: Seq::empty() })
    } else {
        match parse_metadata(lines.skip(1), Seq::empty()) {
            Err(e) => Err(e),
            Ok(metadata) => Ok(
                HeaderView { description: Some(text::trim(lines[0])), metadata },
            ),
        }
    }
}

impl VttHeader {
    /// Writes the header by itself: the description, then a line `key: value`
    /// for each entry.
    pub fn to_text(&self) -> (r: String)
        ensures
            r@ == format_header(self@),
    {
        let mut out = String::new();
        match &self.description {
            Some(d) => {
                out.append(d.as_str());
            },
            None => {},
        }
        let ghost start = out@;
        let entries = self.metadata.entries();
        let ghost wanted = self@.metadata;
        let n = entries.len();
        let mut i: usize = 0;
        assert(out@ =~= start + format_header_entries(wanted.take(0)));
        while i < n
            invariant
                i <= n,
                n == entries@.len(),
                wanted == entry_views(entries@),
                out@ == start + format_header_entries(wanted.take(i as int)),
            decreases n - i,
        {
            let ghost before = out@;
            out.push('\n');
            out.append(entries[i].0.as_str());
            out.push(':');
            out.push(' ');
            out.append(entries[i].1.as_str());
            i += 1;
            proof {
                let done = wanted.take(i as int);
                assert(done.drop_last() =~= wanted.take(i - 1));
                assert(done.last() == wanted[i - 1]);
                assert(out@ =~= before + format_header_entry(wanted[i - 1]));
            }
        }
        assert(wanted.take(i as int) =~= wanted);
        assert(out@ =~= format_header(self@));
        out
    }

    /// Reads a header that was written by itself.
    pub fn from_text(s: &str) -> (r: Result<VttHeader, VttParseError>)
        ensures
            parse_header(s@) == match r {
                Ok(header) => Ok::<HeaderView, Failure>(header@),
                Err(e) => Err::<HeaderView, Failure>(e@),
            },
    {
        let chars = scan::chars_of(s);
        let lines = scan::lines(chars.as_slice());
        let n = lines.len();
        if n == 0 {
            return Ok(VttHeader { description: None, metadata: VttMetadata::new() });
        }
        assert(views(lines@).skip(1) =~= views(lines@).subrange(1, n as int));
        match read_metadata(&lines, 1, n) {
            Ok(metadata) => Ok(
                VttHeader { description: Some(scan::string_of(scan::trim(lines[0]))), metadata },
            ),
            Err(e) => Err(e),
        }
    }
}

} // verus!
