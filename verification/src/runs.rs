//! Runs: the stretches of a sequence between its separators.
//!
//! Words are the runs of characters between whitespace, and the blocks of a
//! document are the runs of lines between blank lines; what holds of runs holds
//! of both.

use vstd::prelude::*;

verus! {

/// The number of elements at the start of `s` for which `f` gives `want`, up
/// to the first one for which it does not.
pub open spec fn leading<T>(s: Seq<T>, f: spec_fn(T) -> bool, want: bool) -> nat
    decreases s.len(),
{
    if s.len() > 0 && f(s[0]) == want {
        1 + leading(s.drop_first(), f, want)
    } else {
        0
    }
}

/// The maximal stretches of `s` that hold no separator, in order. Separators
/// are the elements of which `sep` is true; none of the runs is empty.
pub open spec fn runs<T>(s: Seq<T>, sep: spec_fn(T) -> bool) -> Seq<Seq<T>>
    decreases s.len(),
    via runs_decreases::<T>
{
    let t = s.skip(leading(s, sep, true) as int);
    if t.len() == 0 {
        Seq::empty()
    } else {
        let n = leading(t, sep, false) as int;
        seq![t.take(n)] + runs(t.skip(n), sep)
    }
}

#[via_fn]
proof fn runs_decreases<T>(s: Seq<T>, sep: spec_fn(T) -> bool) {
    lemma_leading(s, sep, true);
    lemma_leading(s.skip(leading(s, sep, true) as int), sep, false);
}

/// No element of `s` is a separator, and `s` is not empty.
pub open spec fn is_run<T>(s: Seq<T>, sep: spec_fn(T) -> bool) -> bool {
    s.len() > 0 && forall|i: int| 0 <= i < s.len() ==> !sep(#[trigger] s[i])
}

/// What `leading` counts: `f` gives `want` for all of the first `n` elements,
/// and not for the next one, if there is one.
pub proof fn lemma_leading<T>(s: Seq<T>, f: spec_fn(T) -> bool, want: bool)
    ensures
        leading(s, f, want) <= s.len(),
        forall|i: int| 0 <= i < leading(s, f, want) ==> f(#[trigger] s[i]) == want,
        leading(s, f, want) < s.len() ==> f(s[leading(s, f, want) as int]) != want,
    decreases s.len(),
{
    if s.len() > 0 && f(s[0]) == want {
        let t = s.drop_first();
        lemma_leading(t, f, want);
        assert forall|i: int| 0 <= i < leading(s, f, want) implies f(#[trigger] s[i]) == want by {
            if i > 0 {
                assert(s[i] == t[i - 1]);
            }
        }
    }
}

/// Only one count has the two properties of `lemma_leading`.
pub proof fn lemma_leading_is<T>(s: Seq<T>, f: spec_fn(T) -> bool, want: bool, n: int)
    requires
        0 <= n <= s.len(),
        forall|i: int| 0 <= i < n ==> f(#[trigger] s[i]) == want,
        n < s.len() ==> f(s[n]) != want,
    ensures
        leading(s, f, want) == n,
    decreases s.len(),
{
    if n > 0 {
        let t = s.drop_first();
        assert(f(s[0]) == want);
        assert forall|i: int| 0 <= i < n - 1 implies f(#[trigger] t[i]) == want by {
            assert(t[i] == s[i + 1]);
        }
        lemma_leading_is(t, f, want, n - 1);
    }
}

/// Separators at the start change nothing about the runs.
pub proof fn lemma_runs_skip<T>(s: Seq<T>, sep: spec_fn(T) -> bool, k: int)
    requires
        0 <= k <= s.len(),
        forall|i: int| 0 <= i < k ==> sep(#[trigger] s[i]),
    ensures
        runs(s, sep) == runs(s.skip(k), sep),
{
    let rest = s.skip(k);
    let n = leading(rest, sep, true) as int;
    lemma_leading(rest, sep, true);
    assert forall|i: int| 0 <= i < k + n implies sep(#[trigger] s[i]) by {
        if i >= k {
            assert(s[i] == rest[i - k]);
        }
    }
    if k + n < s.len() {
        assert(s[k + n] == rest[n]);
    }
    lemma_leading_is(s, sep, true, k + n);
    assert(s.skip(k + n) =~= rest.skip(n));
}

/// A run, followed by nothing or by a separator, is the first run.
pub proof fn lemma_runs_first<T>(run: Seq<T>, rest: Seq<T>, sep: spec_fn(T) -> bool)
    requires
        is_run(run, sep),
        rest.len() > 0 ==> sep(rest[0]),
    ensures
        runs(run + rest, sep) == seq![run] + runs(rest, sep),
{
    let s = run + rest;
    assert(s[0] == run[0]);
    lemma_leading_is(s, sep, true, 0);
    assert(s.skip(0) =~= s);
    assert forall|i: int| 0 <= i < run.len() implies !sep(#[trigger] s[i]) by {
        assert(s[i] == run[i]);
    }
    if rest.len() > 0 {
        assert(s[run.len() as int] == rest[0]);
    }
    lemma_leading_is(s, sep, false, run.len() as int);
    assert(s.take(run.len() as int) =~= run);
    assert(s.skip(run.len() as int) =~= rest);
}

/// Where there are only separators there are no runs.
pub proof fn lemma_runs_none<T>(s: Seq<T>, sep: spec_fn(T) -> bool)
    requires
        forall|i: int| 0 <= i < s.len() ==> sep(#[trigger] s[i]),
    ensures
        runs(s, sep) == Seq::<Seq<T>>::empty(),
{
    lemma_leading_is(s, sep, true, s.len() as int);
}

/// Every run is a run: it is not empty and holds no separator.
pub proof fn lemma_runs_are_runs<T>(s: Seq<T>, sep: spec_fn(T) -> bool)
    ensures
        forall|i: int| 0 <= i < runs(s, sep).len() ==> is_run(#[trigger] runs(s, sep)[i], sep),
    decreases s.len(),
{
    let t = s.skip(leading(s, sep, true) as int);
    lemma_leading(s, sep, true);
    if t.len() > 0 {
        let n = leading(t, sep, false) as int;
        lemma_leading(t, sep, false);
        let first = t.take(n);
        let others = runs(t.skip(n), sep);
        lemma_runs_are_runs(t.skip(n), sep);
        assert(t[0] == s[leading(s, sep, true) as int]);
        assert forall|i: int| 0 <= i < runs(s, sep).len() implies is_run(
            #[trigger] runs(s, sep)[i],
            sep,
        ) by {
            if i == 0 {
                assert(runs(s, sep)[0] == first);
                assert forall|j: int| 0 <= j < first.len() implies !sep(#[trigger] first[j]) by {
                    assert(first[j] == t[j]);
                }
            } else {
                assert(runs(s, sep)[i] == others[i - 1]);
            }
        }
    }
}

/// A separator at the end changes nothing about the runs.
pub proof fn lemma_runs_push<T>(s: Seq<T>, sep: spec_fn(T) -> bool, last: T)
    requires
        sep(last),
    ensures
        runs(s.push(last), sep) == runs(s, sep),
    decreases s.len(),
{
    let more = s.push(last);
    let k = leading(s, sep, true) as int;
    lemma_leading(s, sep, true);
    let t = s.skip(k);
    if t.len() == 0 {
        assert forall|i: int| 0 <= i < more.len() implies sep(#[trigger] more[i]) by {
            if i < s.len() {
                assert(more[i] == s[i]);
            }
        }
        lemma_runs_none(more, sep);
    } else {
        assert forall|i: int| 0 <= i < k implies sep(#[trigger] more[i]) by {
            assert(more[i] == s[i]);
        }
        assert(more[k] == s[k]);
        lemma_leading_is(more, sep, true, k);
        let n = leading(t, sep, false) as int;
        lemma_leading(t, sep, false);
        let u = more.skip(k);
        assert(u =~= t.push(last));
        assert forall|i: int| 0 <= i < n implies !sep(#[trigger] u[i]) by {
            assert(u[i] == t[i]);
        }
        if n < t.len() {
            assert(u[n] == t[n]);
        }
        lemma_leading_is(u, sep, false, n);
        assert(u.take(n) =~= t.take(n));
        assert(u.skip(n) =~= t.skip(n).push(last));
        lemma_runs_push(t.skip(n), sep, last);
    }
}

/// After separators, a run that is followed by nothing or by a separator is
/// the first run.
pub proof fn lemma_runs_after<T>(gap: Seq<T>, run: Seq<T>, rest: Seq<T>, sep: spec_fn(T) -> bool)
    requires
        forall|i: int| 0 <= i < gap.len() ==> sep(#[trigger] gap[i]),
        is_run(run, sep),
        rest.len() > 0 ==> sep(rest[0]),
    ensures
        runs(gap + (run + rest), sep) == seq![run] + runs(rest, sep),
{
    let all = gap + (run + rest);
    assert forall|i: int| 0 <= i < gap.len() implies sep(#[trigger] all[i]) by {
        assert(all[i] == gap[i]);
    }
    lemma_runs_skip(all, sep, gap.len() as int);
    assert(all.skip(gap.len() as int) =~= run + rest);
    lemma_runs_first(run, rest, sep);
}

/// What holds of every element of a sequence holds of every element of
/// each of its runs.
pub proof fn lemma_runs_elements<T>(s: Seq<T>, sep: spec_fn(T) -> bool, holds: spec_fn(T) -> bool)
    requires
        forall|i: int| 0 <= i < s.len() ==> holds(#[trigger] s[i]),
    ensures
        forall|i: int, j: int|
            0 <= i < runs(s, sep).len() && 0 <= j < runs(s, sep)[i].len() ==> holds(
                #[trigger] runs(s, sep)[i][j],
            ),
    decreases s.len(),
{
    let k = leading(s, sep, true) as int;
    lemma_leading(s, sep, true);
    let t = s.skip(k);
    if t.len() > 0 {
        let n = leading(t, sep, false) as int;
        lemma_leading(t, sep, false);
        let first = t.take(n);
        let rest = t.skip(n);
        assert forall|i: int| 0 <= i < rest.len() implies holds(#[trigger] rest[i]) by {
            assert(rest[i] == s[k + n + i]);
        }
        lemma_runs_elements(rest, sep, holds);
        let others = runs(rest, sep);
        assert forall|i: int, j: int|
            0 <= i < runs(s, sep).len() && 0 <= j < runs(s, sep)[i].len() implies holds(
            #[trigger] runs(s, sep)[i][j],
        ) by {
            if i == 0 {
                assert(runs(s, sep)[0] == first);
                assert(first[j] == s[k + j]);
            } else {
                assert(runs(s, sep)[i] == others[i - 1]);
            }
        }
    }
}

} // verus!
