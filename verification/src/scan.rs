//! The functions of [`crate::text`], computed on slices of characters.
//!
//! Text comes in as `&str`, is turned into characters once, is taken apart as
//! subslices of that one buffer, and leaves as `String`.

use crate::text;
use vstd::prelude::*;
use vstd::slice::slice_subrange;

verus! {

/// `String::push` appends one character to the string.
pub assume_specification[ String::push ](s: &mut String, c: char)
    ensures
        final(s)@ == old(s)@.push(c),
;

/// What each slice of `v` holds.
pub open spec fn views(v: Seq<&[char]>) -> Seq<Seq<char>> {
    Seq::new(v.len(), |i: int| v[i]@)
}

/// The characters of `s`.
pub fn chars_of(s: &str) -> (v: Vec<char>)
    ensures
        v@ == s@,
{
    let mut v: Vec<char> = Vec::new();
    for c in it: s.chars()
        invariant
            it.seq() == s@,
            v@ == it.history(),
    {
        v.push(c);
    }
    assert(v@ =~= s@);
    v
}

/// Appends the characters of `s` to `out`.
pub fn push_chars(out: &mut String, s: &[char])
    ensures
        final(out)@ == old(out)@ + s@,
{
    let mut i: usize = 0;
    while i < s.len()
        invariant
            i <= s.len(),
            out@ == old(out)@ + s@.take(i as int),
        decreases s.len() - i,
    {
        out.push(s[i]);
        i += 1;
        assert(s@.take(i as int) =~= s@.take(i - 1).push(s@[i - 1]));
    }
    assert(s@.take(i as int) =~= s@);
}

/// A string of the characters of `s`.
pub fn string_of(s: &[char]) -> (r: String)
    ensures
        r@ == s@,
{
    let mut r = String::new();
    push_chars(&mut r, s);
    r
}

/// Appends the characters of `s` to `out`.
pub fn extend(out: &mut Vec<char>, s: &[char])
    ensures
        final(out)@ == old(out)@ + s@,
{
    let mut i: usize = 0;
    while i < s.len()
        invariant
            i <= s.len(),
            out@ == old(out)@ + s@.take(i as int),
        decreases s.len() - i,
    {
        out.push(s[i]);
        i += 1;
        assert(s@.take(i as int) =~= s@.take(i - 1).push(s@[i - 1]));
    }
    assert(s@.take(i as int) =~= s@);
}

/// Whether `c` is whitespace.
pub fn is_whitespace(c: char) -> (b: bool)
    ensures
        b == text::is_whitespace(c),
{
    c == ' ' || ('\u{9}' <= c && c <= '\u{d}') || c == '\u{85}' || c == '\u{a0}' || c == '\u{1680}'
        || ('\u{2000}' <= c && c <= '\u{200a}') || c == '\u{2028}' || c == '\u{2029}' || c
        == '\u{202f}' || c == '\u{205f}' || c == '\u{3000}'
}

/// Whether two slices hold the same characters.
pub fn same(a: &[char], b: &[char]) -> (r: bool)
    ensures
        r == (a@ == b@),
{
    if a.len() != b.len() {
        return false;
    }
    let mut i: usize = 0;
    while i < a.len()
        invariant
            i <= a.len(),
            a.len() == b.len(),
            forall|j: int| 0 <= j < i ==> a@[j] == b@[j],
        decreases a.len() - i,
    {
        if a[i] != b[i] {
            return false;
        }
        i += 1;
    }
    assert(a@ =~= b@);
    true
}

/// Whether `s` holds exactly the characters of `word`.
pub fn equals(s: &[char], word: &str) -> (r: bool)
    ensures
        r == (s@ == word@),
{
    let w = chars_of(word);
    same(s, w.as_slice())
}

/// `s` without the whitespace at either end.
pub fn trim(s: &[char]) -> (r: &[char])
    ensures
        r@ == text::trim(s@),
{
    let n = s.len();
    let mut a: usize = 0;
    while a < n && is_whitespace(s[a])
        invariant
            a <= n,
            n == s@.len(),
            forall|i: int| 0 <= i < a ==> text::is_whitespace(#[trigger] s@[i]),
        decreases n - a,
    {
        a += 1;
    }
    let mut b: usize = n;
    while b > a && is_whitespace(s[b - 1])
        invariant
            a <= b <= n,
            n == s@.len(),
            forall|i: int| b <= i < n ==> text::is_whitespace(#[trigger] s@[i]),
        decreases b,
    {
        b -= 1;
    }
    proof {
        text::lemma_leading_run_is(s@, true, a as int);
        let t = s@.skip(a as int);
        assert forall|i: int| t.len() - (n - b) <= i < t.len() implies text::is_whitespace(
            #[trigger] t[i],
        ) by {
            assert(t[i] == s@[i + a]);
        }
        text::lemma_trailing_whitespace_is(t, n - b);
        assert(t.take(t.len() - (n - b)) =~= s@.subrange(a as int, b as int));
    }
    slice_subrange(s, a, b)
}

/// Whether `p` stands in `s` at index `i`.
pub fn occurs_at(s: &[char], p: &[char], i: usize) -> (r: bool)
    requires
        i + p@.len() <= s@.len(),
    ensures
        r == text::occurs_at(s@, p@, i as int),
{
    let n = s.len();
    let m = p.len();
    let mut k: usize = 0;
    while k < m
        invariant
            k <= m,
            m == p@.len(),
            n == s@.len(),
            i + m <= n,
            forall|j: int| 0 <= j < k ==> s@[i + j] == p@[j],
        decreases m - k,
    {
        if s[i + k] != p[k] {
            assert(s@.subrange(i as int, i + m)[k as int] != p@[k as int]);
            return false;
        }
        k += 1;
    }
    assert(s@.subrange(i as int, i + m) =~= p@);
    true
}

/// Whether `s` begins with `p`.
pub fn starts_with(s: &[char], p: &[char]) -> (r: bool)
    ensures
        r == text::starts_with(s@, p@),
{
    p.len() <= s.len() && occurs_at(s, p, 0)
}

/// The least index where `p` stands in `s`.
pub fn find(s: &[char], p: &[char]) -> (r: Option<usize>)
    ensures
        text::find(s@, p@) == match r {
            Some(k) => Some(k as int),
            None => None::<int>,
        },
{
    let n = s.len();
    let m = p.len();
    if m > n {
        proof {
            text::lemma_find_none(s@, p@);
        }
        return None;
    }
    let mut i: usize = 0;
    loop
        invariant
            m <= n,
            n == s@.len(),
            m == p@.len(),
            i <= n - m,
            forall|j: int| 0 <= j < i ==> !text::occurs_at(s@, p@, j),
        decreases n - m - i,
    {
        if occurs_at(s, p, i) {
            proof {
                text::lemma_find_is(s@, p@, i as int);
            }
            return Some(i);
        }
        if i == n - m {
            proof {
                text::lemma_find_none(s@, p@);
            }
            return None;
        }
        i += 1;
    }
}

/// The parts of `s` between the occurrences of the separator `p`.
pub fn split<'a>(s: &'a [char], p: &[char]) -> (parts: Vec<&'a [char]>)
    ensures
        views(parts@) == text::split(s@, p@),
{
    let mut parts: Vec<&'a [char]> = Vec::new();
    let mut rest: &'a [char] = s;
    if p.len() == 0 {
        parts.push(s);
        assert(views(parts@) =~= seq![s@]);
        return parts;
    }
    loop
        invariant
            p@.len() > 0,
            text::split(s@, p@) == views(parts@) + text::split(rest@, p@),
        decreases rest@.len(),
    {
        let ghost before = views(parts@);
        match find(rest, p) {
            Some(i) => {
                proof {
                    text::lemma_find(rest@, p@);
                }
                let n = rest.len();
                assert(i + p@.len() <= n);
                parts.push(slice_subrange(rest, 0, i));
                let next = slice_subrange(rest, i + p.len(), n);
                assert(views(parts@) + text::split(next@, p@) =~= before + text::split(
                    rest@,
                    p@,
                )) by {
                    assert(views(parts@) =~= before.push(rest@.take(i as int)));
                }
                rest = next;
            },
            None => {
                parts.push(rest);
                assert(views(parts@) =~= before + text::split(rest@, p@));
                return parts;
            },
        }
    }
}

/// The words of `s`.
pub fn split_whitespace<'a>(s: &'a [char]) -> (words: Vec<&'a [char]>)
    ensures
        views(words@) == text::split_whitespace(s@),
{
    let n = s.len();
    let mut words: Vec<&'a [char]> = Vec::new();
    let mut i: usize = 0;
    assert(s@.skip(0) =~= s@);
    assert(views(words@) + text::split_whitespace(s@) =~= text::split_whitespace(s@));
    loop
        invariant
            i <= n,
            n == s@.len(),
            text::split_whitespace(s@) == views(words@) + text::split_whitespace(
                s@.skip(i as int),
            ),
        decreases n - i,
    {
        let ghost before = views(words@);
        let ghost rest = s@.skip(i as int);
        let mut a: usize = i;
        while a < n && is_whitespace(s[a])
            invariant
                i <= a <= n,
                n == s@.len(),
                forall|j: int| i <= j < a ==> text::is_whitespace(#[trigger] s@[j]),
            decreases n - a,
        {
            a += 1;
        }
        proof {
            assert forall|j: int| 0 <= j < a - i implies text::is_whitespace(#[trigger] rest[j]) by {
                assert(rest[j] == s@[i + j]);
            }
            text::lemma_leading_run_is(rest, true, a - i);
            assert(text::trim_start(rest) =~= s@.skip(a as int));
        }
        if a == n {
            assert(views(words@) + text::split_whitespace(rest) =~= views(words@));
            return words;
        }
        let mut b: usize = a;
        while b < n && !is_whitespace(s[b])
            invariant
                a <= b <= n,
                n == s@.len(),
                forall|j: int| a <= j < b ==> !text::is_whitespace(#[trigger] s@[j]),
            decreases n - b,
        {
            b += 1;
        }
        proof {
            let t = s@.skip(a as int);
            assert forall|j: int| 0 <= j < b - a implies !text::is_whitespace(#[trigger] t[j]) by {
                assert(t[j] == s@[a + j]);
            }
            text::lemma_leading_run_is(t, false, b - a);
            assert(t.take(b - a) =~= s@.subrange(a as int, b as int));
            assert(t.skip(b - a) =~= s@.skip(b as int));
        }
        words.push(slice_subrange(s, a, b));
        assert(views(words@) =~= before.push(s@.subrange(a as int, b as int)));
        assert(views(words@) + text::split_whitespace(s@.skip(b as int)) =~= before
            + text::split_whitespace(rest));
        i = b;
    }
}

/// `s` without one carriage return at its end, if it has one there.
pub fn strip_cr(s: &[char]) -> (r: &[char])
    ensures
        r@ == text::strip_cr(s@),
{
    let n = s.len();
    if n > 0 && s[n - 1] == '\r' {
        slice_subrange(s, 0, n - 1)
    } else {
        s
    }
}

/// The lines of `s`.
pub fn lines<'a>(s: &'a [char]) -> (ls: Vec<&'a [char]>)
    ensures
        views(ls@) == text::lines(s@),
{
    let feed: Vec<char> = vec!['\n'];
    assert(feed@ =~= seq!['\n']);
    let parts = split(s, feed.as_slice());
    proof {
        text::lemma_split_len(s@, feed@);
    }
    let ghost ended = views(parts@).drop_last().map_values(|l: Seq<char>| text::strip_cr(l));
    let last = parts.len() - 1;
    let mut ls: Vec<&'a [char]> = Vec::new();
    let mut i: usize = 0;
    while i < last
        invariant
            i <= last,
            last == parts@.len() - 1,
            views(ls@) == ended.take(i as int),
            ended == views(parts@).drop_last().map_values(|l: Seq<char>| text::strip_cr(l)),
        decreases last - i,
    {
        let ghost before = views(ls@);
        ls.push(strip_cr(parts[i]));
        assert(views(ls@) =~= before.push(text::strip_cr(parts@[i as int]@)));
        i += 1;
        assert(views(ls@) =~= ended.take(i as int));
    }
    assert(ended.take(i as int) =~= ended);
    if parts[last].len() > 0 {
        let ghost before = views(ls@);
        ls.push(parts[last]);
        assert(views(ls@) =~= before.push(parts@[last as int]@));
    }
    ls
}

/// The parts from index `from` up to index `to`, with `sep` between each two
/// neighbours.
pub fn join_range(parts: &Vec<&[char]>, from: usize, to: usize, sep: &[char]) -> (out: Vec<char>)
    requires
        from <= to <= parts@.len(),
    ensures
        out@ == text::join(views(parts@).subrange(from as int, to as int), sep@),
{
    let ghost wanted = views(parts@).subrange(from as int, to as int);
    let mut out: Vec<char> = Vec::new();
    let mut i: usize = from;
    while i < to
        invariant
            from <= i <= to <= parts@.len(),
            wanted == views(parts@).subrange(from as int, to as int),
            out@ == text::join(wanted.take(i - from), sep@),
        decreases to - i,
    {
        if i > from {
            extend(&mut out, sep);
        }
        extend(&mut out, parts[i]);
        i += 1;
        proof {
            let done = wanted.take(i - from);
            assert(done.drop_last() =~= wanted.take(i - from - 1));
            assert(done.last() == parts@[i - 1]@);
        }
    }
    assert(wanted.take(i - from) =~= wanted);
    out
}

/// The parts from index `from` on, with `sep` between each two neighbours.
pub fn join_from(parts: &Vec<&[char]>, from: usize, sep: &[char]) -> (out: Vec<char>)
    requires
        from <= parts@.len(),
    ensures
        out@ == text::join(views(parts@).skip(from as int), sep@),
{
    join_range(parts, from, parts.len(), sep)
}

/// The parts with `sep` between each two neighbours.
pub fn join(parts: &Vec<&[char]>, sep: &[char]) -> (out: Vec<char>)
    ensures
        out@ == text::join(views(parts@), sep@),
{
    assert(views(parts@).skip(0) =~= views(parts@));
    join_from(parts, 0, sep)
}

} // verus!
