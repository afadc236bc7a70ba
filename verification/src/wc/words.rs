//! Words: the stretches of a text between whitespace.

use vstd::prelude::*;
use crate::text::byte_len;

verus! {

/// `c` is whitespace as Unicode defines it (the property `White_Space`):
/// tab to carriage return, the space, next line, the no-break space, the
/// ogham space mark, the spaces of fixed width, line and paragraph
/// separator, the narrow no-break space, the medium mathematical space and
/// the ideographic space.
pub open spec fn spec_is_whitespace(c: char) -> bool {
    let code = c as u32;
    ||| 0x09 <= code <= 0x0D
    ||| code == 0x20
    ||| code == 0x85
    ||| code == 0xA0
    ||| code == 0x1680
    ||| 0x2000 <= code <= 0x200A
    ||| code == 0x2028
    ||| code == 0x2029
    ||| code == 0x202F
    ||| code == 0x205F
    ||| code == 0x3000
}

/// Whether `c` is whitespace as Unicode defines it.
#[verifier::when_used_as_spec(spec_is_whitespace)]
pub fn is_whitespace(c: char) -> (yes: bool)
    ensures
        yes == spec_is_whitespace(c),
{
    let code = c as u32;
    (0x09 <= code && code <= 0x0D) || code == 0x20 || code == 0x85 || code == 0xA0 || code
        == 0x1680 || (0x2000 <= code && code <= 0x200A) || code == 0x2028 || code == 0x2029
        || code == 0x202F || code == 0x205F || code == 0x3000
}

/// A word begins at `i`: the character there is no whitespace, and it is
/// the first of the text or follows whitespace.
pub open spec fn starts_word(text: Seq<char>, i: int) -> bool {
    !is_whitespace(text[i]) && (i == 0 || is_whitespace(text[i - 1]))
}

/// The number of words of `text`: of places where a word begins.
pub open spec fn word_count(text: Seq<char>) -> nat
    decreases text.len(),
{
    if text.len() == 0 {
        0
    } else {
        word_count(text.drop_last()) + if starts_word(text, text.len() - 1) {
            1nat
        } else {
            0nat
        }
    }
}

/// The number of words of `line`: of its stretches of characters that are
/// no whitespace. Whitespace before the first and after the last word
/// counts for nothing, nor does it matter how much of it lies between two
/// words.
pub fn count_words(line: &str) -> (count: usize)
    ensures
        count == word_count(line@),
{
    // no more words than characters, and no more characters than bytes
    let _bytes = byte_len(line);
    let mut count: usize = 0;
    let mut in_word = false;
    for c in it: line.chars()
        invariant
            it.seq() == line@,
            line@.len() <= usize::MAX,
            count == word_count(line@.take(it.index())),
            count <= it.index(),
            in_word == (it.index() > 0 && !is_whitespace(line@[it.index() - 1])),
    {
        assert(line@.take(it.index() + 1).drop_last() =~= line@.take(it.index()));
        if is_whitespace(c) {
            in_word = false;
        } else {
            if !in_word {
                count = count + 1;
            }
            in_word = true;
        }
    }
    assert(line@.take(line@.len() as int) =~= line@);
    count
}

} // verus!
