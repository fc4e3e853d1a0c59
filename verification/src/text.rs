//! The vocabulary of the grammar: what it means, for a sequence of characters,
//! to be trimmed, searched, split into parts, lines or words, and joined.
//!
//! Everything here is mathematics on `Seq<char>`. The functions that run are in
//! [`crate::scan`]; each of them is proved to compute the function of the same
//! name here.

use crate::runs::{is_run, leading, lemma_leading, lemma_leading_is, runs};
use vstd::prelude::*;

verus! {

/// The characters with the Unicode property `White_Space`.
pub open spec fn is_whitespace(c: char) -> bool {
    ||| c == ' '
    ||| ('\u{9}' <= c && c <= '\u{d}')
    ||| c == '\u{85}'
    ||| c == '\u{a0}'
    ||| c == '\u{1680}'
    ||| ('\u{2000}' <= c && c <= '\u{200a}')
    ||| c == '\u{2028}'
    ||| c == '\u{2029}'
    ||| c == '\u{202f}'
    ||| c == '\u{205f}'
    ||| c == '\u{3000}'
}

/// A line feed: what ends a line.
pub open spec fn line_feed() -> Seq<char> {
    seq!['\n']
}

/// A space: what stands between words that are written.
pub open spec fn space() -> Seq<char> {
    seq![' ']
}

/// A colon: what stands between the parts of a timestamp, and after a key.
pub open spec fn colon() -> Seq<char> {
    seq![':']
}

/// `c` occurs nowhere in `s`.
pub open spec fn lacks(s: Seq<char>, c: char) -> bool {
    forall|i: int| 0 <= i < s.len() ==> #[trigger] s[i] != c
}

/// Whitespace, as what separates words.
pub open spec fn whitespace() -> spec_fn(char) -> bool {
    |c: char| is_whitespace(c)
}

/// `s` is not empty and holds no whitespace.
pub open spec fn is_word(s: Seq<char>) -> bool {
    is_run(s, whitespace())
}

/// The number of characters at the start of `s` that are whitespace (`ws` true)
/// or that are not (`ws` false), up to the first one of the other kind.
pub open spec fn leading_run(s: Seq<char>, ws: bool) -> nat {
    leading(s, whitespace(), ws)
}

/// The number of whitespace characters at the end of `s`.
pub open spec fn trailing_whitespace(s: Seq<char>) -> nat
    decreases s.len(),
{
    if s.len() > 0 && is_whitespace(s.last()) {
        1 + trailing_whitespace(s.drop_last())
    } else {
        0
    }
}

/// `s` without the whitespace at its start.
pub open spec fn trim_start(s: Seq<char>) -> Seq<char> {
    s.skip(leading_run(s, true) as int)
}

/// `s` without the whitespace at its end.
pub open spec fn trim_end(s: Seq<char>) -> Seq<char> {
    s.take(s.len() - trailing_whitespace(s))
}

/// `s` without the whitespace at either end.
pub open spec fn trim(s: Seq<char>) -> Seq<char> {
    trim_end(trim_start(s))
}

/// A line that holds nothing but whitespace.
pub open spec fn is_blank_line(line: Seq<char>) -> bool {
    trim(line).len() == 0
}

/// Blank lines, as what separates blocks.
pub open spec fn blank() -> spec_fn(Seq<char>) -> bool {
    |line: Seq<char>| is_blank_line(line)
}

/// `p` stands in `s` at index `i`.
pub open spec fn occurs_at(s: Seq<char>, p: Seq<char>, i: int) -> bool {
    0 <= i && i + p.len() <= s.len() && s.subrange(i, i + p.len()) == p
}

/// The least index at or after `i` where `p` stands in `s`.
pub open spec fn find_from(s: Seq<char>, p: Seq<char>, i: int) -> Option<int>
    decreases s.len() - i,
    via find_from_decreases
{
    if i < 0 || i + p.len() > s.len() {
        None
    } else if occurs_at(s, p, i) {
        Some(i)
    } else {
        find_from(s, p, i + 1)
    }
}

#[via_fn]
proof fn find_from_decreases(s: Seq<char>, p: Seq<char>, i: int) {
    if i == s.len() && p.len() == 0 {
        assert(s.subrange(i, i + p.len()) =~= p);
    }
}

/// The least index where `p` stands in `s`.
pub open spec fn find(s: Seq<char>, p: Seq<char>) -> Option<int> {
    find_from(s, p, 0)
}

/// `p` stands somewhere in `s`.
pub open spec fn contains(s: Seq<char>, p: Seq<char>) -> bool {
    find(s, p) is Some
}

/// `s` begins with `p`.
pub open spec fn starts_with(s: Seq<char>, p: Seq<char>) -> bool {
    occurs_at(s, p, 0)
}

/// The parts of `s` between the occurrences of the separator `p`, found from
/// left to right without overlap. There is always at least one part; a
/// separator at the very start or end leaves an empty part there.
pub open spec fn split(s: Seq<char>, p: Seq<char>) -> Seq<Seq<char>>
    decreases s.len(),
    via split_decreases
{
    match find(s, p) {
        Some(i) if p.len() > 0 => seq![s.take(i)] + split(s.skip(i + p.len()), p),
        _ => seq![s],
    }
}

#[via_fn]
proof fn split_decreases(s: Seq<char>, p: Seq<char>) {
    lemma_find(s, p);
}

/// The words of `s`: its maximal runs of characters that are not whitespace,
/// in order.
pub open spec fn split_whitespace(s: Seq<char>) -> Seq<Seq<char>> {
    runs(s, whitespace())
}

/// `s` without one carriage return at its end, if it has one there.
pub open spec fn strip_cr(s: Seq<char>) -> Seq<char> {
    if s.len() > 0 && s.last() == '\r' {
        s.drop_last()
    } else {
        s
    }
}

/// The lines of `s`. A line ends at a line feed; a carriage return directly
/// before that line feed belongs to the line ending. What follows the last line
/// feed is a line too unless it is empty, and keeps a carriage return at its end.
pub open spec fn lines(s: Seq<char>) -> Seq<Seq<char>> {
    let parts = split(s, line_feed());
    let ended = parts.drop_last().map_values(|l: Seq<char>| strip_cr(l));
    if parts.last().len() == 0 {
        ended
    } else {
        ended.push(parts.last())
    }
}

/// The parts with `sep` between each two neighbours.
pub open spec fn join(parts: Seq<Seq<char>>, sep: Seq<char>) -> Seq<char>
    decreases parts.len(),
{
    if parts.len() == 0 {
        Seq::empty()
    } else if parts.len() == 1 {
        parts[0]
    } else {
        join(parts.drop_last(), sep) + sep + parts.last()
    }
}

/// What `leading_run` counts: all of the first `n` characters are of the kind
/// asked for, and the next one, if there is one, is not.
pub proof fn lemma_leading_run(s: Seq<char>, ws: bool)
    ensures
        leading_run(s, ws) <= s.len(),
        forall|i: int| 0 <= i < leading_run(s, ws) ==> is_whitespace(#[trigger] s[i]) == ws,
        leading_run(s, ws) < s.len() ==> is_whitespace(s[leading_run(s, ws) as int]) != ws,
{
    lemma_leading(s, whitespace(), ws);
}

/// Only one count has the two properties of `lemma_leading_run`.
pub proof fn lemma_leading_run_is(s: Seq<char>, ws: bool, n: int)
    requires
        0 <= n <= s.len(),
        forall|i: int| 0 <= i < n ==> is_whitespace(#[trigger] s[i]) == ws,
        n < s.len() ==> is_whitespace(s[n]) != ws,
    ensures
        leading_run(s, ws) == n,
{
    lemma_leading_is(s, whitespace(), ws, n);
}

/// What `trailing_whitespace` counts.
pub proof fn lemma_trailing_whitespace(s: Seq<char>)
    ensures
        trailing_whitespace(s) <= s.len(),
        forall|i: int|
            s.len() - trailing_whitespace(s) <= i < s.len() ==> is_whitespace(#[trigger] s[i]),
        trailing_whitespace(s) < s.len() ==> !is_whitespace(
            s[s.len() - trailing_whitespace(s) - 1],
        ),
    decreases s.len(),
{
    if s.len() > 0 && is_whitespace(s.last()) {
        let t = s.drop_last();
        lemma_trailing_whitespace(t);
        assert forall|i: int| s.len() - trailing_whitespace(s) <= i < s.len() implies is_whitespace(
            #[trigger] s[i],
        ) by {
            if i < s.len() - 1 {
                assert(s[i] == t[i]);
            }
        }
    }
}

/// Only one count has the two properties of `lemma_trailing_whitespace`.
pub proof fn lemma_trailing_whitespace_is(s: Seq<char>, n: int)
    requires
        0 <= n <= s.len(),
        forall|i: int| s.len() - n <= i < s.len() ==> is_whitespace(#[trigger] s[i]),
        n < s.len() ==> !is_whitespace(s[s.len() - n - 1]),
    ensures
        trailing_whitespace(s) == n,
    decreases s.len(),
{
    if n > 0 {
        let t = s.drop_last();
        assert(is_whitespace(s[s.len() - 1]));
        assert forall|i: int| t.len() - (n - 1) <= i < t.len() implies is_whitespace(
            #[trigger] t[i],
        ) by {
            assert(t[i] == s[i]);
        }
        lemma_trailing_whitespace_is(t, n - 1);
    }
}

/// What `find_from` returns: the least index from `i` on where `p` stands, and
/// `None` exactly when there is no such index.
pub proof fn lemma_find_from(s: Seq<char>, p: Seq<char>, i: int)
    requires
        0 <= i,
    ensures
        match find_from(s, p, i) {
            Some(k) => i <= k && occurs_at(s, p, k) && forall|j: int|
                i <= j < k ==> !occurs_at(s, p, j),
            None => forall|j: int| i <= j ==> !occurs_at(s, p, j),
        },
    decreases s.len() - i,
{
    if i + p.len() <= s.len() && !occurs_at(s, p, i) {
        if i == s.len() {
            assert(s.subrange(i, i + p.len()) =~= p);
        }
        lemma_find_from(s, p, i + 1);
    }
}

/// What `find` returns.
pub proof fn lemma_find(s: Seq<char>, p: Seq<char>)
    ensures
        match find(s, p) {
            Some(k) => occurs_at(s, p, k) && forall|j: int| 0 <= j < k ==> !occurs_at(s, p, j),
            None => forall|j: int| !occurs_at(s, p, j),
        },
{
    lemma_find_from(s, p, 0);
}

/// The first place where `p` stands in `s` is what `find` returns.
pub proof fn lemma_find_is(s: Seq<char>, p: Seq<char>, k: int)
    requires
        occurs_at(s, p, k),
        forall|j: int| 0 <= j < k ==> !occurs_at(s, p, j),
    ensures
        find(s, p) == Some(k),
{
    lemma_find(s, p);
}

/// Where `p` stands nowhere in `s`, `find` returns `None`.
pub proof fn lemma_find_none(s: Seq<char>, p: Seq<char>)
    requires
        forall|j: int| 0 <= j && j + p.len() <= s.len() ==> !occurs_at(s, p, j),
    ensures
        find(s, p) is None,
{
    lemma_find(s, p);
}

/// A split has at least one part.
pub proof fn lemma_split_len(s: Seq<char>, p: Seq<char>)
    ensures
        split(s, p).len() >= 1,
{
}

} // verus!
