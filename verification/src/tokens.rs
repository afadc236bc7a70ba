//! The arguments of a command line, one token each: which of them are
//! options, which is refused, and which names the file.

use vstd::prelude::*;

verus! {

/// The option made of a dash and `letter`.
pub open spec fn flag(letter: char) -> Seq<char> {
    seq!['-', letter]
}

/// `token` starts with a dash: it is meant as an option, not as a path.
pub open spec fn is_option(token: Seq<char>) -> bool {
    token.len() > 0 && token[0] == '-'
}

/// `token` is meant as an option and is none of the `known` ones.
pub open spec fn is_unknown(token: Seq<char>, known: Set<Seq<char>>) -> bool {
    is_option(token) && !known.contains(token)
}

/// The first of `tokens` that is an option and none of the `known` ones.
pub open spec fn first_unknown(tokens: Seq<Seq<char>>, known: Set<Seq<char>>) -> Option<
    Seq<char>,
>
    decreases tokens.len(),
{
    if tokens.len() == 0 {
        None
    } else {
        match first_unknown(tokens.drop_last(), known) {
            Some(token) => Some(token),
            None => if is_unknown(tokens.last(), known) {
                Some(tokens.last())
            } else {
                None
            },
        }
    }
}

/// The last of `tokens` that is no option: the path that counts.
pub open spec fn last_path(tokens: Seq<Seq<char>>) -> Option<Seq<char>>
    decreases tokens.len(),
{
    if tokens.len() == 0 {
        None
    } else if !is_option(tokens.last()) {
        Some(tokens.last())
    } else {
        last_path(tokens.drop_last())
    }
}

/// No unknown option is found exactly where there is none, and the one found
/// is unknown and has only known options and paths before it.
pub proof fn lemma_first_unknown(tokens: Seq<Seq<char>>, known: Set<Seq<char>>)
    ensures
        match first_unknown(tokens, known) {
            None => forall|i: int| 0 <= i < tokens.len() ==> !is_unknown(#[trigger] tokens[i], known),
            Some(token) => exists|i: int|
                0 <= i < tokens.len() && #[trigger] tokens[i] == token && is_unknown(token, known)
                    && forall|j: int| 0 <= j < i ==> !is_unknown(#[trigger] tokens[j], known),
        },
    decreases tokens.len(),
{
    if tokens.len() > 0 {
        let head = tokens.drop_last();
        lemma_first_unknown(head, known);
        match first_unknown(head, known) {
            Some(token) => {
                let i = choose|i: int|
                    0 <= i < head.len() && #[trigger] head[i] == token && is_unknown(token, known)
                        && forall|j: int| 0 <= j < i ==> !is_unknown(#[trigger] head[j], known);
                assert forall|j: int| 0 <= j < i implies !is_unknown(#[trigger] tokens[j], known) by {
                    assert(tokens[j] == head[j]);
                }
            },
            None => {
                assert forall|j: int| 0 <= j < head.len() implies !is_unknown(
                    #[trigger] tokens[j],
                    known,
                ) by {
                    assert(tokens[j] == head[j]);
                }
            },
        }
    }
}

/// An unknown option with none before it is the first one of all the tokens.
pub proof fn lemma_unknown_found(tokens: Seq<Seq<char>>, i: int, known: Set<Seq<char>>)
    requires
        0 <= i < tokens.len(),
        first_unknown(tokens.take(i), known) is None,
        is_unknown(tokens[i], known),
    ensures
        first_unknown(tokens, known) == Some(tokens[i]),
{
    assert(tokens.take(i + 1).drop_last() =~= tokens.take(i));
    lemma_first_unknown_stays(tokens, i + 1, known);
}

/// An unknown option found among the first `k` tokens is the one found
/// among all of them.
pub proof fn lemma_first_unknown_stays(tokens: Seq<Seq<char>>, k: int, known: Set<Seq<char>>)
    requires
        0 <= k <= tokens.len(),
        first_unknown(tokens.take(k), known) is Some,
    ensures
        first_unknown(tokens, known) == first_unknown(tokens.take(k), known),
    decreases tokens.len() - k,
{
    if k == tokens.len() {
        assert(tokens.take(k) =~= tokens);
    } else {
        assert(tokens.take(k + 1).drop_last() =~= tokens.take(k));
        lemma_first_unknown_stays(tokens, k + 1, known);
    }
}

/// Where none of `tokens` is an unknown option, none is found.
pub proof fn lemma_none_unknown(tokens: Seq<Seq<char>>, known: Set<Seq<char>>)
    requires
        forall|i: int| 0 <= i < tokens.len() ==> !is_unknown(#[trigger] tokens[i], known),
    ensures
        first_unknown(tokens, known) is None,
{
    lemma_first_unknown(tokens, known);
}

/// Known options and paths in front do not change which unknown option is
/// found first.
pub proof fn lemma_first_unknown_after(
    front: Seq<Seq<char>>,
    tokens: Seq<Seq<char>>,
    known: Set<Seq<char>>,
)
    requires
        forall|i: int| 0 <= i < front.len() ==> !is_unknown(#[trigger] front[i], known),
    ensures
        first_unknown(front + tokens, known) == first_unknown(tokens, known),
    decreases tokens.len(),
{
    if tokens.len() == 0 {
        lemma_none_unknown(front, known);
    } else {
        lemma_first_unknown_after(front, tokens.drop_last(), known);
        assert((front + tokens).drop_last() =~= front + tokens.drop_last());
    }
}

/// Options in front do not change which path is the last.
pub proof fn lemma_last_path_after(front: Seq<Seq<char>>, tokens: Seq<Seq<char>>)
    requires
        forall|i: int| 0 <= i < front.len() ==> is_option(#[trigger] front[i]),
    ensures
        last_path(front + tokens) == last_path(tokens),
    decreases tokens.len(), front.len(),
{
    if tokens.len() == 0 {
        if front.len() > 0 {
            lemma_last_path_after(front.drop_last(), tokens);
        }
    } else {
        lemma_last_path_after(front, tokens.drop_last());
        assert((front + tokens).drop_last() =~= front + tokens.drop_last());
    }
}

/// Whether `token` starts with a dash.
pub fn starts_with_dash(token: &str) -> (yes: bool)
    ensures
        yes == is_option(token@),
{
    let mut it = token.chars();
    match it.next() {
        Some(first) => first == '-',
        None => false,
    }
}

/// Whether `token` is exactly a dash followed by `letter`.
pub fn is_flag(token: &str, letter: char) -> (yes: bool)
    ensures
        yes == (token@ =~= flag(letter)),
{
    let mut it = token.chars();
    match it.next() {
        Some(first) => {
            if first != '-' {
                return false;
            }
        },
        None => {
            return false;
        },
    }
    match it.next() {
        Some(second) => {
            if second != letter {
                return false;
            }
        },
        None => {
            return false;
        },
    }
    it.next().is_none()
}

} // verus!
