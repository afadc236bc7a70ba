//! What holds of encoding and decoding together.

use vstd::prelude::*;
use crate::decimal::{
    decimal, is_digit, lemma_decimal_shape, lemma_decimal_value, lemma_decimal_value_tenfold,
};
use crate::rle::decode::{
    after, decode_spec, digit_prefix_len, lemma_digit_prefix, lemma_digit_prefix_bound,
    lemma_parse_complete_run, parse_runs,
};
use crate::rle::encode::{encode_spec, render};
use crate::rle::runs::{
    expand, extend, lemma_expand_first, lemma_runs_expand, lemma_runs_maximal,
    lemma_runs_of_appended_run, maximal, runs_of, Run,
};
use crate::text::repeat;

verus! {

/// Every count fits in `usize`.
pub open spec fn counts_fit(runs: Seq<Run>) -> bool {
    forall|i: int| 0 <= i < runs.len() ==> (#[trigger] runs[i]).1 <= usize::MAX
}

/// No run but the first repeats a digit.
pub open spec fn digits_lead(runs: Seq<Run>) -> bool {
    forall|i: int| 0 < i < runs.len() ==> !is_digit((#[trigger] runs[i]).0)
}

/// A digit of `text` stands at the very beginning or repeats the character
/// before it: digits occur in the first run only.
pub open spec fn digits_in_first_run(text: Seq<char>) -> bool {
    forall|i: int| 0 < i < text.len() && is_digit(#[trigger] text[i]) ==> text[i - 1] == text[i]
}

/// The texts that decoding gives back after encoding: those whose digits all
/// lie in the first run, and whose runs are no longer than `usize` counts.
pub open spec fn round_trips(text: Seq<char>) -> bool {
    digits_in_first_run(text) && counts_fit(runs_of(text))
}

/// The text of two rows of runs, one after the other, is the text of their
/// concatenation.
pub proof fn lemma_render_concat(a: Seq<Run>, b: Seq<Run>)
    ensures
        render(a + b) == render(a) + render(b),
    decreases b.len(),
{
    if b.len() > 0 {
        lemma_render_concat(a, b.drop_last());
        assert((a + b).drop_last() =~= a + b.drop_last());
    }
}

/// The text of runs begins with the character of the first run, then its
/// count, then the text of the other runs.
pub proof fn lemma_render_first(runs: Seq<Run>)
    requires
        runs.len() > 0,
    ensures
        render(runs) == seq![runs[0].0] + decimal(runs[0].1) + render(runs.drop_first()),
        render(runs).len() > 0,
        render(runs)[0] == runs[0].0,
{
    let first = seq![runs[0]];
    assert(first + runs.drop_first() =~= runs);
    lemma_render_concat(first, runs.drop_first());
    assert(render(first.drop_last()) =~= Seq::<char>::empty());
}

/// The text of runs reads as those runs again, where every count fits and no
/// run but the first repeats a digit.
pub proof fn lemma_parse_render(runs: Seq<Run>)
    requires
        counts_fit(runs),
        digits_lead(runs),
    ensures
        parse_runs(render(runs)) == Ok::<Seq<Run>, Seq<char>>(runs),
    decreases runs.len(),
{
    if runs.len() > 0 {
        let c = runs[0].0;
        let n = runs[0].1;
        let rest = runs.drop_first();
        assert(counts_fit(rest) && digits_lead(rest));
        lemma_parse_render(rest);
        lemma_render_first(runs);
        if rest.len() > 0 {
            lemma_render_first(rest);
        }
        lemma_decimal_shape(n);
        lemma_decimal_value(n);
        lemma_parse_complete_run(c, decimal(n), render(rest));
        assert(seq![(c, n)] + rest =~= runs);
    } else {
        assert(runs =~= Seq::<Run>::empty());
    }
}

/// The runs of a text whose digits lie in its first run: no later run
/// repeats a digit.
pub proof fn lemma_digits_lead(text: Seq<char>)
    requires
        digits_in_first_run(text),
    ensures
        digits_lead(runs_of(text)),
    decreases text.len(),
{
    if text.len() > 0 {
        let head = text.drop_last();
        let c = text.last();
        assert(digits_in_first_run(head));
        lemma_digits_lead(head);
        // the last run either grows, or begins with `c`, which then differs
        // from the character before it and so is no digit
        assert(digits_lead(extend(runs_of(head), c)));
    }
}

/// Decoding gives back what was encoded, for every text whose digits lie in
/// its first run and whose runs are no longer than `usize` counts. (A digit
/// that begins a later run would be read as part of the count before it.)
pub proof fn lemma_decode_encode(text: Seq<char>)
    requires
        round_trips(text),
    ensures
        decode_spec(encode_spec(text)) == Ok::<Seq<char>, Seq<char>>(text),
{
    lemma_digits_lead(text);
    lemma_parse_render(runs_of(text));
    lemma_runs_expand(text);
}

/// The other way round: where no later run repeats a digit, every digit of
/// the text lies in its first run.
pub proof fn lemma_digits_in_first_run(text: Seq<char>)
    requires
        digits_lead(runs_of(text)),
    ensures
        digits_in_first_run(text),
    decreases text.len(),
{
    if text.len() > 0 {
        let head = text.drop_last();
        let c = text.last();
        let before = runs_of(head);
        let now = extend(before, c);
        assert(digits_lead(before)) by {
            assert forall|i: int| 0 < i < before.len() implies !is_digit((#[trigger] before[i]).0) by {
                assert(now[i].0 == before[i].0);
            }
        }
        lemma_digits_in_first_run(head);
        assert forall|i: int| 0 < i < text.len() && is_digit(#[trigger] text[i]) implies text[i
            - 1] == text[i] by {
            if i < head.len() {
                assert(head[i] == text[i]);
            } else if text[i - 1] != c {
                // `c` does not repeat the character before it, so it begins a run
                assert(now[before.len() as int] == (c, 1nat));
            }
        }
    }
}

/// Runs that are written as text and read back come back as they were only
/// where every count fits and no run but the first repeats a digit: read
/// runs that stand for the same text show that both hold.
pub proof fn lemma_faithful_parse(runs: Seq<Run>, parsed: Seq<Run>)
    requires
        maximal(runs),
        parse_runs(render(runs)) == Ok::<Seq<Run>, Seq<char>>(parsed),
        expand(parsed) == expand(runs),
    ensures
        counts_fit(runs),
        digits_lead(runs),
    decreases runs.len(),
{
    if runs.len() > 0 {
        let c = runs[0].0;
        let n = runs[0].1;
        let rest = runs.drop_first();
        let whole = render(runs);
        let tail = decimal(n) + render(rest);
        lemma_render_first(runs);
        lemma_expand_first(runs);
        lemma_decimal_shape(n);
        lemma_decimal_value(n);
        assert(whole.drop_first() =~= tail);
        lemma_digit_prefix(decimal(n), render(rest));
        lemma_digit_prefix_bound(render(rest));
        let k = digit_prefix_len(tail);
        let digits = whole.subrange(1, 1 + k as int);
        assert(digits.take(decimal(n).len() as int) =~= decimal(n));
        lemma_expand_first(parsed);
        if rest.len() > 0 {
            lemma_render_first(rest);
            lemma_expand_first(rest);
            assert(expand(runs)[n as int] == rest[0].0);
            if is_digit(rest[0].0) {
                // the digit would be read as part of the count, which would
                // then be too large for the texts to agree at `n`
                lemma_decimal_value_tenfold(digits, decimal(n).len() as int);
                assert(false);
            }
        }
        assert(digits =~= decimal(n));
        assert(whole.skip(1 + k as int) =~= render(rest));
        let parsed_rest = parse_runs(render(rest))->Ok_0;
        assert(parsed.drop_first() =~= parsed_rest);
        assert(expand(parsed).skip(n as int) =~= expand(parsed_rest));
        assert(expand(runs).skip(n as int) =~= expand(rest));
        assert(maximal(rest));
        lemma_faithful_parse(rest, parsed_rest);
        assert forall|i: int| 0 <= i < runs.len() implies (#[trigger] runs[i]).1 <= usize::MAX by {
            if i > 0 {
                assert(runs[i] == rest[i - 1]);
            }
        }
        assert forall|i: int| 0 < i < runs.len() implies !is_digit((#[trigger] runs[i]).0) by {
            assert(runs[i] == rest[i - 1]);
        }
    }
}

/// Decoding gives back what was encoded for the texts of [`round_trips`],
/// and for no others.
pub proof fn lemma_round_trip_exact(text: Seq<char>)
    ensures
        decode_spec(encode_spec(text)) == Ok::<Seq<char>, Seq<char>>(text) <==> round_trips(text),
{
    if round_trips(text) {
        lemma_decode_encode(text);
    }
    if decode_spec(encode_spec(text)) == Ok::<Seq<char>, Seq<char>>(text) {
        let runs = runs_of(text);
        lemma_runs_maximal(text);
        lemma_runs_expand(text);
        lemma_faithful_parse(runs, parse_runs(render(runs))->Ok_0);
        lemma_digits_in_first_run(text);
    }
}

/// A text that is one character `n` times over encodes to that character
/// followed by `n` in decimal.
pub proof fn lemma_encode_single_run(c: char, n: nat)
    requires
        n >= 1,
    ensures
        encode_spec(repeat(c, n)) == seq![c] + decimal(n),
{
    let nothing = Seq::<char>::empty();
    lemma_runs_of_appended_run(nothing, c, n);
    let runs = runs_of(nothing).push((c, n));
    assert(render(runs.drop_last()) =~= Seq::<char>::empty());
}

/// A character followed by a count that fits decodes to the character that
/// many times over.
pub proof fn lemma_decode_single_run(c: char, n: nat)
    requires
        n <= usize::MAX,
    ensures
        decode_spec(seq![c] + decimal(n)) == Ok::<Seq<char>, Seq<char>>(repeat(c, n)),
{
    let nothing = Seq::<char>::empty();
    lemma_decimal_shape(n);
    lemma_decimal_value(n);
    lemma_parse_complete_run(c, decimal(n), nothing);
    let runs = seq![(c, n)];
    assert(expand(runs.drop_last()) =~= nothing);
}

} // verus!
