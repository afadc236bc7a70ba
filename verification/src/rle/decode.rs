//! Decoding: from run-length text back to the text that it stands for.

use vstd::prelude::*;
use crate::decimal::{all_digits, digit_of, is_digit, parse_count, parse_decimal};
use crate::rle::error::{RleError, RleErrorView};
use crate::rle::runs::{expand, Run};
use crate::text::{push_repeated, repeat};

verus! {

/// The number of ASCII digits that `text` begins with.
pub open spec fn digit_prefix_len(text: Seq<char>) -> nat
    decreases text.len(),
{
    if text.len() > 0 && is_digit(text[0]) {
        1 + digit_prefix_len(text.drop_first())
    } else {
        0
    }
}

/// A text begins with no more digits than it has characters.
pub proof fn lemma_digit_prefix_bound(text: Seq<char>)
    ensures
        digit_prefix_len(text) <= text.len(),
    decreases text.len(),
{
    if text.len() > 0 && is_digit(text[0]) {
        lemma_digit_prefix_bound(text.drop_first());
    }
}

/// `text` read as runs: a character, then all the digits that follow it,
/// then the next character, and so on. `Err` holds the digits of the first
/// run whose count is missing or does not fit in `usize`.
pub open spec fn parse_runs(text: Seq<char>) -> Result<Seq<Run>, Seq<char>>
    decreases text.len(),
{
    if text.len() == 0 {
        Ok(Seq::empty())
    } else {
        let k = digit_prefix_len(text.drop_first());
        let digits = text.subrange(1, 1 + k as int);
        proof {
            lemma_digit_prefix_bound(text.drop_first());
        }
        match parse_count(digits) {
            None => Err(digits),
            Some(n) => match parse_runs(text.skip(1 + k as int)) {
                Ok(rest) => Ok(seq![(text[0], n as nat)] + rest),
                Err(bad) => Err(bad),
            },
        }
    }
}

/// The text that the run-length text `text` stands for, or the digits of
/// its first run without a usable count.
pub open spec fn decode_spec(text: Seq<char>) -> Result<Seq<char>, Seq<char>> {
    match parse_runs(text) {
        Ok(runs) => Ok(expand(runs)),
        Err(bad) => Err(bad),
    }
}

/// `done`, then what `rest` gives.
pub open spec fn after(done: Seq<Run>, rest: Result<Seq<Run>, Seq<char>>) -> Result<
    Seq<Run>,
    Seq<char>,
> {
    match rest {
        Ok(runs) => Ok(done + runs),
        Err(bad) => Err(bad),
    }
}

/// The part of a run that has been read but not yet written out: its
/// character and the digits so far.
spec fn unfinished(open: Option<char>, digits: Seq<char>) -> Seq<char> {
    match open {
        Some(c) => seq![c] + digits,
        None => Seq::empty(),
    }
}

/// Digits in front add their number to the digits that a text begins with.
pub proof fn lemma_digit_prefix(digits: Seq<char>, rest: Seq<char>)
    requires
        all_digits(digits),
    ensures
        digit_prefix_len(digits + rest) == digits.len() + digit_prefix_len(rest),
    decreases digits.len(),
{
    if digits.len() > 0 {
        assert(all_digits(digits.drop_first()));
        lemma_digit_prefix(digits.drop_first(), rest);
        assert((digits + rest).drop_first() =~= digits.drop_first() + rest);
    }
}

/// What a run that is complete reads as: `c`, its `digits`, and then `rest`,
/// which does not go on with a digit.
pub proof fn lemma_parse_complete_run(c: char, digits: Seq<char>, rest: Seq<char>)
    requires
        all_digits(digits),
        rest.len() > 0 ==> !is_digit(rest[0]),
    ensures
        parse_runs(seq![c] + digits + rest) == match parse_count(digits) {
            None => Err::<Seq<Run>, Seq<char>>(digits),
            Some(n) => after(seq![(c, n as nat)], parse_runs(rest)),
        },
{
    let whole = seq![c] + digits + rest;
    assert(whole.drop_first() =~= digits + rest);
    lemma_digit_prefix(digits, rest);
    assert(whole.subrange(1, 1 + digits.len() as int) =~= digits);
    assert(whole.skip(1 + digits.len() as int) =~= rest);
}

/// Writes out the run of `c` whose count is `digits`, or says that the count
/// cannot be used.
fn close_run(out: &mut String, c: char, digits: &String) -> (done: Result<(), RleError>)
    ensures
        match parse_count(digits@) {
            Some(n) => done is Ok && final(out)@ == old(out)@ + repeat(c, n as nat),
            None => done matches Err(e) && e@ == RleErrorView::ParseCount(digits@)
                && final(out)@ == old(out)@,
        },
{
    match parse_decimal(digits.as_str()) {
        Some(n) => {
            push_repeated(out, c, n);
            Ok(())
        },
        None => Err(RleError::ParseCount(digits.clone())),
    }
}

/// Decodes the characters of `lines`, taken as one stream: a run may begin
/// in one line and have its count in the next. The stream is read as a
/// character, the digits after it, the next character, and so on; each
/// character is written as often as its digits say. Fails at the first run
/// whose count is missing or too large for `usize`, with the digits found.
pub fn decode(lines: &Vec<String>) -> (res: Result<String, RleError>)
    ensures
        match decode_spec(lines.deep_view().flatten()) {
            Ok(text) => res matches Ok(out) && out@ == text,
            Err(bad) => res matches Err(e) && e@ == RleErrorView::ParseCount(bad),
        },
{
    let ghost all = lines.deep_view();
    let ghost stream = all.flatten();
    let mut out = String::new();
    let mut open: Option<char> = None;
    let mut digits = String::new();
    let ghost mut done: Seq<Run> = Seq::empty();
    assert(all.skip(0) =~= all);
    for i in 0..lines.len()
        invariant
            all == lines.deep_view(),
            stream == all.flatten(),
            all_digits(digits@),
            open is None ==> digits@.len() == 0,
            parse_runs(stream) == after(
                done,
                parse_runs(unfinished(open, digits@) + all.skip(i as int).flatten()),
            ),
            out@ == expand(done),
    {
        let line = lines[i].as_str();
        let ghost later = all.skip(i + 1).flatten();
        proof {
            assert(all.skip(i as int).drop_first() =~= all.skip(i + 1));
            assert(line@.skip(0) =~= line@);
        }
        for c in it: line.chars()
            invariant
                it.seq() == line@,
                stream == lines.deep_view().flatten(),
                all_digits(digits@),
                open is None ==> digits@.len() == 0,
                parse_runs(stream) == after(
                    done,
                    parse_runs(unfinished(open, digits@) + (line@.skip(it.index()) + later)),
                ),
                out@ == expand(done),
        {
            let ghost rest = line@.skip(it.index()) + later;
            let ghost next = line@.skip(it.index() + 1) + later;
            assert(rest =~= seq![c] + next);
            match open {
                None => {
                    open = Some(c);
                },
                Some(run) => {
                    if digit_of(c).is_some() {
                        let ghost before = digits@;
                        digits.push(c);
                        proof {
                            assert(all_digits(digits@));
                            assert(unfinished(open, digits@) + next =~= unfinished(open, before)
                                + rest);
                        }
                    } else {
                        proof {
                            lemma_parse_complete_run(run, digits@, rest);
                        }
                        match close_run(&mut out, run, &digits) {
                            Ok(()) => {},
                            Err(e) => {
                                return Err(e);
                            },
                        }
                        proof {
                            let n = parse_count(digits@)->Some_0 as nat;
                            let closed = done.push((run, n));
                            assert(closed.drop_last() =~= done);
                            assert forall|more: Seq<Run>|
                                done + (seq![(run, n)] + more) =~= closed + more by {}
                            done = closed;
                        }
                        open = Some(c);
                        digits = String::new();
                    }
                },
            }
        }
    }
    match open {
        None => {},
        Some(run) => {
            proof {
                lemma_parse_complete_run(run, digits@, Seq::empty());
            }
            match close_run(&mut out, run, &digits) {
                Ok(()) => {},
                Err(e) => {
                    return Err(e);
                },
            }
            proof {
                let n = parse_count(digits@)->Some_0 as nat;
                let closed = done.push((run, n));
                assert(closed.drop_last() =~= done);
                assert(done + (seq![(run, n)] + Seq::<Run>::empty()) =~= closed);
            }
        },
    }
    Ok(out)
}

} // verus!
