//! What holds of trimming, splitting and joining: the facts that tie the
//! text that is written to the parts that it was written from.

use crate::runs::{lemma_runs_first, lemma_runs_skip};
use crate::text::{
    find, is_blank_line, is_whitespace, is_word, join, lacks, leading_run, lemma_find,
    lemma_find_is, lemma_find_none, lemma_leading_run, lemma_leading_run_is,
    lemma_trailing_whitespace, lemma_trailing_whitespace_is, line_feed, lines, occurs_at, space,
    split, split_whitespace, strip_cr, trailing_whitespace, trim, trim_start, whitespace,
};
use vstd::prelude::*;

verus! {

/// `s` has no whitespace at its start and none at its end.
pub open spec fn is_trimmed(s: Seq<char>) -> bool {
    s.len() == 0 || (!is_whitespace(s[0]) && !is_whitespace(s.last()))
}

/// `s` does not end with a carriage return.
pub open spec fn ends_plainly(s: Seq<char>) -> bool {
    s.len() == 0 || s.last() != '\r'
}

/// Every part lacks `c`.
pub open spec fn all_lack(parts: Seq<Seq<char>>, c: char) -> bool {
    forall|i: int| 0 <= i < parts.len() ==> lacks(#[trigger] parts[i], c)
}

/// After a sequence that lacks the first character of the separator, the
/// separator is found where that sequence ends.
pub proof fn lemma_find_after(x: Seq<char>, p: Seq<char>, rest: Seq<char>)
    requires
        p.len() > 0,
        lacks(x, p[0]),
    ensures
        find(x + p + rest, p) == Some(x.len() as int),
{
    let s = x + p + rest;
    assert(s.subrange(x.len() as int, (x.len() + p.len()) as int) =~= p);
    assert forall|j: int| 0 <= j < x.len() implies !occurs_at(s, p, j) by {
        if occurs_at(s, p, j) {
            assert(s.subrange(j, j + p.len())[0] == p[0]);
            assert(s[j] == x[j]);
        }
    }
    lemma_find_is(s, p, x.len() as int);
}

/// A sequence that lacks the first character of the separator, followed by the
/// separator, is the first part of a split; the parts of the rest follow.
pub proof fn lemma_split_after(x: Seq<char>, p: Seq<char>, rest: Seq<char>)
    requires
        p.len() > 0,
        lacks(x, p[0]),
    ensures
        split(x + p + rest, p) == seq![x] + split(rest, p),
{
    let s = x + p + rest;
    lemma_find_after(x, p, rest);
    assert(s.take(x.len() as int) =~= x);
    assert(s.skip((x.len() + p.len()) as int) =~= rest);
}

/// What one more part adds to what is joined.
pub proof fn lemma_join_push(parts: Seq<Seq<char>>, sep: Seq<char>, last: Seq<char>)
    ensures
        join(parts.push(last), sep) == if parts.len() == 0 {
            last
        } else {
            join(parts, sep) + sep + last
        },
{
    assert(parts.push(last).drop_last() =~= parts);
}

/// Joining takes the first part, the separator, and the rest joined.
pub proof fn lemma_join_first(parts: Seq<Seq<char>>, sep: Seq<char>)
    requires
        parts.len() >= 2,
    ensures
        join(parts, sep) == parts[0] + sep + join(parts.drop_first(), sep),
    decreases parts.len(),
{
    let front = parts.drop_last();
    let back = parts.drop_first();
    if parts.len() == 2 {
        assert(front.len() == 1 && front[0] == parts[0]);
        assert(back.len() == 1 && back[0] == parts[1]);
        assert(join(front, sep) == parts[0]);
        assert(join(back, sep) == parts[1]);
        assert(parts.last() == parts[1]);
    } else {
        lemma_join_first(front, sep);
        assert(front.drop_first() =~= back.drop_last());
        assert(join(parts, sep) =~= parts[0] + sep + join(back, sep));
    }
}

/// Whitespace at the start changes nothing about the words.
pub proof fn lemma_split_whitespace_skip(s: Seq<char>, k: int)
    requires
        0 <= k <= s.len(),
        forall|i: int| 0 <= i < k ==> is_whitespace(#[trigger] s[i]),
    ensures
        split_whitespace(s) == split_whitespace(s.skip(k)),
{
    lemma_runs_skip(s, whitespace(), k);
}

/// A word, followed by nothing or by whitespace, is the first word.
pub proof fn lemma_split_whitespace_word(word: Seq<char>, rest: Seq<char>)
    requires
        is_word(word),
        rest.len() > 0 ==> is_whitespace(rest[0]),
    ensures
        split_whitespace(word + rest) == seq![word] + split_whitespace(rest),
{
    lemma_runs_first(word, rest, whitespace());
}

/// Words that were joined with a space between them are found again.
pub proof fn lemma_split_whitespace_join(words: Seq<Seq<char>>)
    requires
        forall|i: int| 0 <= i < words.len() ==> is_word(#[trigger] words[i]),
    ensures
        split_whitespace(join(words, space())) == words,
    decreases words.len(),
{
    let sep = space();
    let empty = Seq::<char>::empty();
    if words.len() == 0 {
        assert(trim_start(empty) =~= empty);
        assert(split_whitespace(empty) =~= words);
    } else if words.len() == 1 {
        assert(trim_start(empty) =~= empty);
        assert(is_word(words[0]));
        lemma_split_whitespace_word(words[0], empty);
        assert(words[0] + empty =~= words[0]);
        assert(seq![words[0]] + split_whitespace(empty) =~= words);
    } else {
        let rest = words.drop_first();
        let tail = sep + join(rest, sep);
        lemma_join_first(words, sep);
        assert(join(words, sep) =~= words[0] + tail);
        assert(is_word(words[0]));
        lemma_split_whitespace_word(words[0], tail);
        lemma_split_whitespace_skip(tail, 1);
        assert(tail.skip(1) =~= join(rest, sep));
        assert forall|i: int| 0 <= i < rest.len() implies is_word(#[trigger] rest[i]) by {
            assert(rest[i] == words[i + 1]);
        }
        lemma_split_whitespace_join(rest);
        assert(seq![words[0]] + rest =~= words);
    }
}

/// A separator stands nowhere in a sequence that lacks one of its characters.
pub proof fn lemma_absent(s: Seq<char>, p: Seq<char>, k: int)
    requires
        0 <= k < p.len(),
        lacks(s, p[k]),
    ensures
        find(s, p) is None,
        split(s, p) == seq![s],
{
    assert forall|j: int| 0 <= j && j + p.len() <= s.len() implies !occurs_at(s, p, j) by {
        if occurs_at(s, p, j) {
            assert(s.subrange(j, j + p.len())[k] == p[k]);
            assert(s[j + k] == p[k]);
        }
    }
    lemma_find_none(s, p);
}

/// What is cut out of a sequence lacks what the sequence lacks.
pub proof fn lemma_subrange_lacks(s: Seq<char>, a: int, b: int, c: char)
    requires
        lacks(s, c),
        0 <= a <= b <= s.len(),
    ensures
        lacks(s.subrange(a, b), c),
{
    assert forall|i: int| 0 <= i < b - a implies #[trigger] s.subrange(a, b)[i] != c by {
        assert(s[a + i] != c);
    }
}

/// What is put together lacks what its two pieces lack.
pub proof fn lemma_concat_lacks(a: Seq<char>, b: Seq<char>, c: char)
    requires
        lacks(a, c),
        lacks(b, c),
    ensures
        lacks(a + b, c),
{
    assert forall|i: int| 0 <= i < (a + b).len() implies #[trigger] (a + b)[i] != c by {
        if i < a.len() {
            assert(a[i] != c);
        } else {
            assert(b[i - a.len()] != c);
        }
    }
}

/// Parts that lack the separator, joined and split again, are the same parts.
pub proof fn lemma_split_join(parts: Seq<Seq<char>>, c: char)
    requires
        parts.len() >= 1,
        all_lack(parts, c),
    ensures
        split(join(parts, seq![c]), seq![c]) == parts,
    decreases parts.len(),
{
    let sep = seq![c];
    assert(lacks(parts[0], c));
    if parts.len() == 1 {
        lemma_absent(parts[0], sep, 0);
        assert(seq![parts[0]] =~= parts);
    } else {
        let rest = parts.drop_first();
        lemma_join_first(parts, sep);
        lemma_split_after(parts[0], sep, join(rest, sep));
        assert forall|i: int| 0 <= i < rest.len() implies lacks(#[trigger] rest[i], c) by {
            assert(rest[i] == parts[i + 1]);
        }
        lemma_split_join(rest, c);
        assert(seq![parts[0]] + rest =~= parts);
    }
}

/// The parts of a split, joined again, are what was split.
pub proof fn lemma_join_split(s: Seq<char>, sep: Seq<char>)
    requires
        sep.len() > 0,
    ensures
        join(split(s, sep), sep) == s,
        split(s, sep).len() >= 1,
    decreases s.len(),
{
    lemma_find(s, sep);
    match find(s, sep) {
        Some(i) => {
            let rest = s.skip(i + sep.len());
            let parts = split(s, sep);
            lemma_join_split(rest, sep);
            assert(parts[0] == s.take(i));
            assert(parts.drop_first() =~= split(rest, sep));
            lemma_join_first(parts, sep);
            assert(s.subrange(i, i + sep.len()) == sep);
            assert(s =~= s.take(i) + sep + rest);
        },
        None => {},
    }
}

/// Every part of a split at a character lacks that character.
pub proof fn lemma_split_lacks(s: Seq<char>, c: char)
    ensures
        all_lack(split(s, seq![c]), c),
    decreases s.len(),
{
    let sep = seq![c];
    lemma_find(s, sep);
    let parts = split(s, sep);
    match find(s, sep) {
        Some(i) => {
            let rest = s.skip(i + 1);
            lemma_split_lacks(rest, c);
            assert forall|j: int| 0 <= j < i implies #[trigger] s.take(i)[j] != c by {
                if s[j] == c {
                    assert(s.subrange(j, j + 1) =~= sep);
                    assert(occurs_at(s, sep, j));
                }
            }
            assert forall|k: int| 0 <= k < parts.len() implies lacks(#[trigger] parts[k], c) by {
                if k > 0 {
                    assert(parts[k] == split(rest, sep)[k - 1]);
                }
            }
        },
        None => {
            assert forall|j: int| 0 <= j < s.len() implies #[trigger] s[j] != c by {
                if s[j] == c {
                    assert(s.subrange(j, j + 1) =~= sep);
                    assert(occurs_at(s, sep, j));
                }
            }
        },
    }
}

/// Where a sequence does not end with the separator, the last part of the
/// split is not empty, and ends as the sequence ends.
pub proof fn lemma_split_last(s: Seq<char>, c: char)
    requires
        s.len() > 0,
        s.last() != c,
    ensures
        split(s, seq![c]).last().len() > 0,
        split(s, seq![c]).last().last() == s.last(),
    decreases s.len(),
{
    let sep = seq![c];
    lemma_find(s, sep);
    match find(s, sep) {
        Some(i) => {
            let rest = s.skip(i + 1);
            assert(s.subrange(i, i + 1)[0] == c);
            assert(i < s.len() - 1);
            assert(rest.last() == s.last());
            lemma_split_last(rest, c);
            let parts = split(s, sep);
            assert(parts.last() == split(rest, sep).last());
        },
        None => {},
    }
}

/// Joining two lists of parts, one after the other.
pub proof fn lemma_join_concat(a: Seq<Seq<char>>, b: Seq<Seq<char>>, sep: Seq<char>)
    requires
        a.len() >= 1,
        b.len() >= 1,
    ensures
        join(a + b, sep) == join(a, sep) + sep + join(b, sep),
    decreases b.len(),
{
    let all = a + b;
    assert(all.last() == b.last());
    if b.len() == 1 {
        assert(all.drop_last() =~= a);
    } else {
        assert(all.drop_last() =~= a + b.drop_last());
        lemma_join_concat(a, b.drop_last(), sep);
        assert(join(all, sep) =~= join(a, sep) + sep + join(b, sep));
    }
}

/// What is joined lacks what the parts and the separator lack.
pub proof fn lemma_join_lacks(parts: Seq<Seq<char>>, sep: Seq<char>, c: char)
    requires
        all_lack(parts, c),
        lacks(sep, c),
    ensures
        lacks(join(parts, sep), c),
    decreases parts.len(),
{
    if parts.len() == 1 {
        assert(lacks(parts[0], c));
    } else if parts.len() >= 2 {
        let front = parts.drop_last();
        assert forall|i: int| 0 <= i < front.len() implies lacks(#[trigger] front[i], c) by {
            assert(front[i] == parts[i]);
        }
        lemma_join_lacks(front, sep, c);
        assert(lacks(parts.last(), c));
        lemma_concat_lacks(join(front, sep), sep, c);
        lemma_concat_lacks(join(front, sep) + sep, parts.last(), c);
    }
}

/// The lines of lines that were joined with line feeds: the same lines,
/// without the last one where it is empty.
pub proof fn lemma_lines_join(ls: Seq<Seq<char>>)
    requires
        ls.len() >= 1,
        all_lack(ls, '\n'),
        forall|i: int| 0 <= i < ls.len() - 1 ==> ends_plainly(#[trigger] ls[i]),
    ensures
        lines(join(ls, line_feed())) == if ls.last().len() == 0 {
            ls.drop_last()
        } else {
            ls
        },
{
    lemma_split_join(ls, '\n');
    let ended = ls.drop_last().map_values(|l: Seq<char>| strip_cr(l));
    assert(ended =~= ls.drop_last()) by {
        assert forall|i: int| 0 <= i < ls.len() - 1 implies #[trigger] ended[i] == ls[i] by {
            assert(ends_plainly(ls[i]));
        }
    }
    if ls.last().len() > 0 {
        assert(ls.drop_last().push(ls.last()) =~= ls);
    }
}

/// Every line lacks the line feed.
pub proof fn lemma_lines_lack(s: Seq<char>)
    ensures
        all_lack(lines(s), '\n'),
{
    let parts = split(s, line_feed());
    lemma_split_lacks(s, '\n');
    lemma_join_split(s, line_feed());
    let ls = lines(s);
    assert forall|i: int| 0 <= i < ls.len() implies lacks(#[trigger] ls[i], '\n') by {
        assert(lacks(parts[i], '\n'));
        if i < parts.len() - 1 {
            assert(ls[i] == strip_cr(parts[i]));
            if strip_cr(parts[i]) != parts[i] {
                lemma_subrange_lacks(parts[i], 0, parts[i].len() - 1, '\n');
            }
        }
    }
}

/// Where the whitespace of `s` ends at `a` and begins again at `b`, what is
/// left after trimming is what stands from `a` to `b`.
pub proof fn lemma_trim_is(s: Seq<char>, a: int, b: int)
    requires
        0 <= a <= b <= s.len(),
        forall|i: int| 0 <= i < a ==> is_whitespace(#[trigger] s[i]),
        forall|i: int| b <= i < s.len() ==> is_whitespace(#[trigger] s[i]),
        a < b ==> !is_whitespace(s[a]) && !is_whitespace(s[b - 1]),
    ensures
        trim(s) == s.subrange(a, b),
{
    if a < b {
        lemma_leading_run_is(s, true, a);
        let t = s.skip(a);
        assert forall|i: int| t.len() - (s.len() - b) <= i < t.len() implies is_whitespace(
            #[trigger] t[i],
        ) by {
            assert(t[i] == s[i + a]);
        }
        assert(t[t.len() - (s.len() - b) - 1] == s[b - 1]);
        lemma_trailing_whitespace_is(t, s.len() - b);
        assert(t.take(t.len() - (s.len() - b)) =~= s.subrange(a, b));
    } else {
        lemma_leading_run_is(s, true, s.len() as int);
        let t = s.skip(s.len() as int);
        lemma_trailing_whitespace_is(t, 0);
        assert(t.take(0) =~= s.subrange(a, b));
    }
}

/// Trimming changes nothing about what is trimmed.
pub proof fn lemma_trim_trimmed(s: Seq<char>)
    requires
        is_trimmed(s),
    ensures
        trim(s) == s,
{
    lemma_trim_is(s, 0, s.len() as int);
    assert(s.subrange(0, s.len() as int) =~= s);
}

/// What trimming leaves: a stretch of `s` that is trimmed, with only
/// whitespace before and after it.
pub proof fn lemma_trim(s: Seq<char>)
    ensures
        is_trimmed(trim(s)),
        trim(s) == s.subrange(
            leading_run(s, true) as int,
            s.len() - trailing_whitespace(trim_start(s)),
        ),
        leading_run(s, true) <= s.len() - trailing_whitespace(trim_start(s)) <= s.len(),
        forall|i: int| 0 <= i < leading_run(s, true) ==> is_whitespace(#[trigger] s[i]),
        forall|i: int|
            s.len() - trailing_whitespace(trim_start(s)) <= i < s.len() ==> is_whitespace(
                #[trigger] s[i],
            ),
{
    let a = leading_run(s, true) as int;
    let t = trim_start(s);
    let k = trailing_whitespace(t) as int;
    lemma_leading_run(s, true);
    lemma_trailing_whitespace(t);
    assert(trim(s) =~= s.subrange(a, s.len() - k));
    assert forall|i: int| s.len() - k <= i < s.len() implies is_whitespace(#[trigger] s[i]) by {
        assert(t[i - a] == s[i]);
    }
    if trim(s).len() > 0 {
        assert(trim(s)[0] == s[a]);
        assert(trim(s).last() == t[t.len() - k - 1]);
    }
}

/// What is left after trimming lacks what the whole lacks.
pub proof fn lemma_trim_lacks(s: Seq<char>, c: char)
    requires
        lacks(s, c),
    ensures
        lacks(trim(s), c),
{
    lemma_trim(s);
    lemma_subrange_lacks(
        s,
        leading_run(s, true) as int,
        s.len() - trailing_whitespace(trim_start(s)),
        c,
    );
}

/// Whitespace around something trimmed is what trimming takes away.
pub proof fn lemma_trim_around(before: Seq<char>, s: Seq<char>, after: Seq<char>)
    requires
        is_trimmed(s),
        forall|i: int| 0 <= i < before.len() ==> is_whitespace(#[trigger] before[i]),
        forall|i: int| 0 <= i < after.len() ==> is_whitespace(#[trigger] after[i]),
    ensures
        trim(before + s + after) == s,
{
    let all = before + s + after;
    let a = before.len() as int;
    let b = a + s.len();
    assert forall|i: int| 0 <= i < a implies is_whitespace(#[trigger] all[i]) by {
        assert(all[i] == before[i]);
    }
    assert forall|i: int| b <= i < all.len() implies is_whitespace(#[trigger] all[i]) by {
        assert(all[i] == after[i - b]);
    }
    if s.len() > 0 {
        assert(all[a] == s[0]);
        assert(all[b - 1] == s.last());
    }
    lemma_trim_is(all, a, b);
    assert(all.subrange(a, b) =~= s);
}

/// A sequence with a character that is not whitespace is not blank.
pub proof fn lemma_not_blank(s: Seq<char>, i: int)
    requires
        0 <= i < s.len(),
        !is_whitespace(s[i]),
    ensures
        !is_blank_line(s),
{
    lemma_trim(s);
}

/// The end of what is joined is the end of the last part.
pub proof fn lemma_join_last(parts: Seq<Seq<char>>, sep: Seq<char>)
    requires
        parts.len() >= 1,
        parts.last().len() > 0,
    ensures
        join(parts, sep).len() > 0,
        join(parts, sep).last() == parts.last().last(),
{
}

/// The index of a character of `s` that is not whitespace, where there is one.
pub open spec fn mark(s: Seq<char>) -> int {
    choose|i: int| 0 <= i < s.len() && !is_whitespace(s[i])
}

/// A line that is not blank has a character that is not whitespace.
pub proof fn lemma_mark(s: Seq<char>)
    requires
        !is_blank_line(s),
    ensures
        0 <= mark(s) < s.len(),
        !is_whitespace(s[mark(s)]),
{
    lemma_trim(s);
    let first = leading_run(s, true) as int;
    assert(trim(s)[0] == s[first]);
    assert(0 <= first < s.len() && !is_whitespace(s[first]));
}

/// A line without the carriage return at its end is blank only where the
/// line is.
pub proof fn lemma_strip_cr_blank(s: Seq<char>)
    requires
        !is_blank_line(s),
    ensures
        !is_blank_line(strip_cr(s)),
{
    lemma_mark(s);
    if strip_cr(s) != s {
        assert(s[s.len() - 1] == '\r');
        assert(strip_cr(s)[mark(s)] == s[mark(s)]);
        lemma_not_blank(strip_cr(s), mark(s));
    }
}

/// What is joined begins with the first part and ends with the last.
pub proof fn lemma_join_ends(parts: Seq<Seq<char>>, sep: Seq<char>)
    requires
        parts.len() >= 1,
    ensures
        join(parts, sep).len() >= parts[0].len(),
        join(parts, sep).len() >= parts.last().len(),
        join(parts, sep).take(parts[0].len() as int) == parts[0],
        join(parts, sep).skip(join(parts, sep).len() - parts.last().len()) == parts.last(),
{
    let all = join(parts, sep);
    if parts.len() >= 2 {
        lemma_join_first(parts, sep);
        assert(all.take(parts[0].len() as int) =~= parts[0]);
        assert(all.skip(all.len() - parts.last().len()) =~= parts.last());
    } else {
        assert(all.take(parts[0].len() as int) =~= parts[0]);
        assert(all.skip(all.len() - parts.last().len()) =~= parts.last());
    }
}

/// Cutting from the start of what is joined is cutting from the first part.
pub proof fn lemma_join_skip(parts: Seq<Seq<char>>, sep: Seq<char>, a: int)
    requires
        parts.len() >= 1,
        0 <= a <= parts[0].len(),
    ensures
        join(parts, sep).skip(a) == join(parts.update(0, parts[0].skip(a)), sep),
{
    let cut = parts.update(0, parts[0].skip(a));
    if parts.len() >= 2 {
        lemma_join_first(parts, sep);
        lemma_join_first(cut, sep);
        assert(cut.drop_first() =~= parts.drop_first());
        assert(join(parts, sep).skip(a) =~= join(cut, sep));
    } else {
        assert(join(parts, sep).skip(a) =~= join(cut, sep));
    }
}

/// Cutting from the end of what is joined is cutting from the last part.
pub proof fn lemma_join_take(parts: Seq<Seq<char>>, sep: Seq<char>, k: int)
    requires
        parts.len() >= 1,
        0 <= k <= parts.last().len(),
    ensures
        join(parts, sep).take(join(parts, sep).len() - k) == join(
            parts.update(parts.len() - 1, parts.last().take(parts.last().len() - k)),
            sep,
        ),
{
    let cut = parts.update(parts.len() - 1, parts.last().take(parts.last().len() - k));
    if parts.len() >= 2 {
        assert(cut.drop_last() =~= parts.drop_last());
        assert(join(parts, sep).take(join(parts, sep).len() - k) =~= join(cut, sep));
    } else {
        assert(join(parts, sep).take(join(parts, sep).len() - k) =~= join(cut, sep));
    }
}

/// Lines that are not blank, joined and trimmed, are still as many lines,
/// and none of them is blank.
pub proof fn lemma_trim_join(ls: Seq<Seq<char>>)
    requires
        ls.len() >= 1,
        all_lack(ls, '\n'),
        forall|i: int| 0 <= i < ls.len() ==> !is_blank_line(#[trigger] ls[i]),
    ensures
        trim(join(ls, line_feed())).len() > 0,
        split(trim(join(ls, line_feed())), line_feed()).len() == ls.len(),
        forall|i: int|
            0 <= i < ls.len() ==> !is_blank_line(
                #[trigger] split(trim(join(ls, line_feed())), line_feed())[i],
            ),
{
    let all = join(ls, line_feed());
    let p = trim(all);
    let n = ls.len() as int;
    let first = ls[0];
    let last = ls[n - 1];
    lemma_trim(all);
    lemma_join_ends(ls, line_feed());
    assert(!is_blank_line(first));
    assert(!is_blank_line(last));
    lemma_mark(first);
    lemma_mark(last);
    let a = all.len() - trim_start(all).len();
    let b = a + p.len();
    assert(p == all.subrange(a, b));
    // the whitespace at the start ends within the first line
    let w = mark(first);
    assert(all[w] == all.take(first.len() as int)[w]);
    assert(a <= w);
    // the whitespace at the end begins within the last line
    let off = all.len() - last.len();
    let v = mark(last);
    assert(all[off + v] == all.skip(off)[v]);
    assert(off + v < b);
    let k = all.len() - b;
    let cut = ls.update(0, first.skip(a));
    lemma_join_skip(ls, line_feed(), a);
    let trimmed = cut.update(n - 1, cut[n - 1].take(cut[n - 1].len() - k));
    assert(cut[n - 1].len() >= k) by {
        if n == 1 {
            assert(cut[0].len() == first.len() - a);
        } else {
            assert(cut[n - 1] == last);
        }
    }
    lemma_join_take(cut, line_feed(), k);
    assert(p =~= join(trimmed, line_feed()));
    assert forall|i: int| 0 <= i < n implies lacks(#[trigger] trimmed[i], '\n') && !is_blank_line(
        trimmed[i],
    ) by {
        assert(lacks(ls[i], '\n'));
        assert(!is_blank_line(ls[i]));
        if n == 1 {
            assert(trimmed[0] =~= first.subrange(a, first.len() - k));
            lemma_subrange_lacks(first, a, first.len() - k, '\n');
            assert(trimmed[0][w - a] == first[w]);
            lemma_not_blank(trimmed[0], w - a);
        } else if i == 0 {
            assert(trimmed[0] == first.skip(a));
            lemma_subrange_lacks(first, a, first.len() as int, '\n');
            assert(trimmed[0][w - a] == first[w]);
            lemma_not_blank(trimmed[0], w - a);
        } else if i == n - 1 {
            assert(trimmed[i] == last.take(last.len() - k));
            lemma_subrange_lacks(last, 0, last.len() - k, '\n');
            assert(trimmed[i][v] == last[v]);
            lemma_not_blank(trimmed[i], v);
        } else {
            assert(trimmed[i] == ls[i]);
        }
    }
    lemma_split_join(trimmed, '\n');
}

} // verus!
