//! What holds of the counting tool whatever the input.

use vstd::prelude::*;
use crate::tokens::{flag, is_option, is_unknown, lemma_first_unknown_after, lemma_last_path_after};
use crate::wc::args::{known_flags, named_flags, parse, selected_flags};
use crate::wc::flags::Flags;
use crate::wc::words::{is_whitespace, word_count};

verus! {

/// More whitespace where there is whitespace already, or at either end of
/// the text, leaves the number of words as it is: one more whitespace
/// character `space` at `i` changes nothing unless it splits a word.
pub proof fn lemma_extra_whitespace(text: Seq<char>, i: int, space: char)
    requires
        0 <= i <= text.len(),
        is_whitespace(space),
        i == 0 || i == text.len() || is_whitespace(text[i - 1]) || is_whitespace(text[i]),
    ensures
        word_count(text.insert(i, space)) == word_count(text),
    decreases text.len(),
{
    let wider = text.insert(i, space);
    if i == text.len() {
        // the new last character begins no word
        assert(wider.drop_last() =~= text);
    } else {
        // the last character stays, and begins a word as it did before
        let head = text.drop_last();
        assert(wider.drop_last() =~= head.insert(i, space));
        lemma_extra_whitespace(head, i, space);
    }
}

/// The three options, as they stand on a command line that names them all.
pub open spec fn every_flag() -> Seq<Seq<char>> {
    seq![flag('l'), flag('w'), flag('c')]
}

/// Arguments that name none of the three counts ask for what the same
/// arguments ask for with `-l -w -c` in front: all three.
pub proof fn lemma_no_flag_means_all(tokens: Seq<Seq<char>>)
    requires
        named_flags(tokens).none_set(),
    ensures
        parse(tokens) == parse(every_flag() + tokens),
        selected_flags(tokens) == (Flags { lines: true, words: true, bytes: true }),
{
    let front = every_flag();
    let all = front + tokens;
    assert forall|i: int| 0 <= i < front.len() implies is_option(#[trigger] front[i])
        && !is_unknown(front[i], known_flags()) by {}
    lemma_first_unknown_after(front, tokens, known_flags());
    lemma_last_path_after(front, tokens);
    assert(all[0] == flag('l') && all[1] == flag('w') && all[2] == flag('c'));
}

} // verus!
