//! Runs: the model that encoding and decoding share. A text falls apart into
//! its runs in exactly one way, and the runs give the text back.

use vstd::prelude::*;
use crate::text::repeat;

verus! {

/// A character and the number of times it is repeated.
pub type Run = (char, nat);

/// The text that `runs` stand for: each run written out, one after the other.
pub open spec fn expand(runs: Seq<Run>) -> Seq<char>
    decreases runs.len(),
{
    if runs.len() == 0 {
        Seq::empty()
    } else {
        expand(runs.drop_last()) + repeat(runs.last().0, runs.last().1)
    }
}

/// No run is empty and no two neighbours repeat the same character: every
/// run is as long as it can be.
pub open spec fn maximal(runs: Seq<Run>) -> bool {
    &&& forall|i: int| 0 <= i < runs.len() ==> (#[trigger] runs[i]).1 >= 1
    &&& forall|i: int| 0 < i < runs.len() ==> runs[i - 1].0 != (#[trigger] runs[i]).0
}

/// `runs` after one more character `c`: the last run grows where it repeats
/// `c`, else a new run of one begins.
pub open spec fn extend(runs: Seq<Run>, c: char) -> Seq<Run> {
    if runs.len() > 0 && runs.last().0 == c {
        runs.drop_last().push((c, runs.last().1 + 1))
    } else {
        runs.push((c, 1))
    }
}

/// The runs of `text`, in order.
pub open spec fn runs_of(text: Seq<char>) -> Seq<Run>
    decreases text.len(),
{
    if text.len() == 0 {
        Seq::empty()
    } else {
        extend(runs_of(text.drop_last()), text.last())
    }
}

/// Writing out two rows of runs one after the other writes out their
/// concatenation.
pub proof fn lemma_expand_concat(a: Seq<Run>, b: Seq<Run>)
    ensures
        expand(a + b) == expand(a) + expand(b),
    decreases b.len(),
{
    if b.len() > 0 {
        lemma_expand_concat(a, b.drop_last());
        assert((a + b).drop_last() =~= a + b.drop_last());
    }
}

/// The text of runs begins with the first run written out; the text of the
/// other runs follows.
pub proof fn lemma_expand_first(runs: Seq<Run>)
    requires
        runs.len() > 0,
    ensures
        expand(runs) == repeat(runs[0].0, runs[0].1) + expand(runs.drop_first()),
{
    let first = seq![runs[0]];
    assert(first + runs.drop_first() =~= runs);
    lemma_expand_concat(first, runs.drop_first());
    assert(expand(first.drop_last()) =~= Seq::<char>::empty());
}

/// One more character at the end of the runs is one more character at the
/// end of the text.
pub proof fn lemma_expand_extend(runs: Seq<Run>, c: char)
    ensures
        expand(extend(runs, c)) == expand(runs).push(c),
{
    let more = extend(runs, c);
    if runs.len() > 0 && runs.last().0 == c {
        assert(more.drop_last() =~= runs.drop_last());
    } else {
        assert(more.drop_last() =~= runs);
    }
}

/// The runs of a text are maximal.
pub proof fn lemma_runs_maximal(text: Seq<char>)
    ensures
        maximal(runs_of(text)),
    decreases text.len(),
{
    if text.len() > 0 {
        lemma_runs_maximal(text.drop_last());
    }
}

/// The runs of a text lose nothing: written out, they are the text.
pub proof fn lemma_runs_expand(text: Seq<char>)
    ensures
        expand(runs_of(text)) == text,
    decreases text.len(),
{
    if text.len() > 0 {
        lemma_runs_expand(text.drop_last());
        lemma_expand_extend(runs_of(text.drop_last()), text.last());
    }
}

/// The runs of `text` followed by `n` more copies of `c`, where `text` does
/// not end in `c`.
pub proof fn lemma_runs_of_appended_run(text: Seq<char>, c: char, n: nat)
    requires
        n >= 1,
        text.len() > 0 ==> text.last() != c,
    ensures
        runs_of(text + repeat(c, n)) == runs_of(text).push((c, n)),
    decreases n,
{
    let whole = text + repeat(c, n);
    if n == 1 {
        assert(whole.drop_last() =~= text);
    } else {
        lemma_runs_of_appended_run(text, c, (n - 1) as nat);
        assert(whole.drop_last() =~= text + repeat(c, (n - 1) as nat));
    }
}

/// A text has one row of maximal runs only: maximal runs are the runs of the
/// text that they stand for.
pub proof fn lemma_runs_unique(runs: Seq<Run>)
    requires
        maximal(runs),
    ensures
        runs_of(expand(runs)) == runs,
    decreases runs.len(),
{
    if runs.len() > 0 {
        let head = runs.drop_last();
        let tail = runs.last();
        lemma_runs_unique(head);
        lemma_runs_of_appended_run(expand(head), tail.0, tail.1);
    }
}

} // verus!
