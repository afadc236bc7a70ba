//! Encoding: from lines of text to the run-length text of their characters.

use vstd::prelude::*;
use crate::decimal::{decimal, push_decimal};
use crate::rle::runs::{runs_of, Run};
use crate::text::{byte_len, lemma_lines_fit};

verus! {

/// `runs` as text: for each run its character, then its length in decimal.
pub open spec fn render(runs: Seq<Run>) -> Seq<char>
    decreases runs.len(),
{
    if runs.len() == 0 {
        Seq::empty()
    } else {
        render(runs.drop_last()) + seq![runs.last().0] + decimal(runs.last().1)
    }
}

/// The run-length text of `text`: its runs, each as character and length.
pub open spec fn encode_spec(text: Seq<char>) -> Seq<char> {
    render(runs_of(text))
}

/// The runs seen so far, with the one that is still growing added at the end.
spec fn with_open_run(closed: Seq<Run>, open: Option<char>, count: nat) -> Seq<Run> {
    match open {
        Some(c) => closed.push((c, count)),
        None => closed,
    }
}

/// Encodes the characters of `lines`, taken as one stream: a run goes on
/// from one line into the next. Each run of a repeated character becomes the
/// character followed by the length of the run in decimal. No lines, or empty
/// lines only, give the empty text. No character is set apart: a text may
/// hold any character, NUL and the digits too.
pub fn encode(lines: &Vec<String>) -> (out: String)
    ensures
        out@ == encode_spec(lines.deep_view().flatten()),
{
    let ghost all = lines.deep_view();
    let mut out = String::new();
    let mut open: Option<char> = None;
    let mut count: u128 = 0;
    let ghost mut closed: Seq<Run> = Seq::empty();
    let ghost mut seen: Seq<char> = Seq::empty();
    for i in 0..lines.len()
        invariant
            all == lines.deep_view(),
            seen == all.take(i as int).flatten(),
            seen.len() <= i * usize::MAX,
            runs_of(seen) == with_open_run(closed, open, count as nat),
            out@ == render(closed),
            count <= seen.len(),
            open is Some ==> count >= 1,
            open is None ==> closed.len() == 0,
    {
        let line = lines[i].as_str();
        // no more characters than bytes: the run length cannot overflow
        let _bytes = byte_len(line);
        let ghost before = seen;
        for c in it: line.chars()
            invariant
                it.seq() == line@,
                line@.len() <= usize::MAX,
                i < lines.len(),
                seen == before + line@.take(it.index()),
                before.len() <= i * usize::MAX,
                runs_of(seen) == with_open_run(closed, open, count as nat),
                out@ == render(closed),
                count <= seen.len(),
                open is Some ==> count >= 1,
                open is None ==> closed.len() == 0,
        {
            let ghost old_runs = runs_of(seen);
            proof {
                let longer = seen.push(c);
                assert(longer.drop_last() =~= seen);
                assert(longer =~= before + line@.take(it.index() + 1));
                lemma_lines_fit(i as nat, line@.len());
                seen = longer;
            }
            match open {
                Some(run) if run == c => {
                    count = count + 1;
                    assert(old_runs.drop_last() =~= closed);
                },
                Some(run) => {
                    out.push(run);
                    push_decimal(&mut out, count);
                    proof {
                        closed = old_runs;
                    }
                    open = Some(c);
                    count = 1;
                },
                None => {
                    open = Some(c);
                    count = 1;
                },
            }
        }
        proof {
            assert(all.take(i + 1) =~= all.take(i as int).push(line@));
            all.take(i as int).lemma_flatten_push(line@);
            lemma_lines_fit(i as nat, line@.len());
        }
    }
    assert(all.take(lines.len() as int) =~= all);
    if let Some(run) = open {
        out.push(run);
        push_decimal(&mut out, count);
        assert(runs_of(seen).drop_last() =~= closed);
    }
    out
}

} // verus!
