//! What both tools need of strings: appending a character, and the bound on
//! the number of characters that a string in memory can have.

use vstd::prelude::*;
use vstd::string::StringSliceAdditionalSpecFns;
use vstd::utf8::encode_utf8;

verus! {

/// `String::push` appends the given character to the end of the string and
/// leaves the characters before it as they were. Assumed, not proved.
pub assume_specification[ String::push ](s: &mut String, ch: char)
    ensures
        final(s)@ == old(s)@.push(ch),
;

/// `n` copies of `c`.
pub open spec fn repeat(c: char, n: nat) -> Seq<char> {
    Seq::new(n, |i: int| c)
}

/// Every character takes at least one byte in UTF-8.
pub proof fn lemma_chars_fit_in_bytes(chars: Seq<char>)
    ensures
        chars.len() <= encode_utf8(chars).len(),
    decreases chars.len(),
{
    if chars.len() > 0 {
        lemma_chars_fit_in_bytes(chars.drop_first());
    }
}

/// What lines in memory hold together is far from the end of `u128`: fewer
/// than `usize::MAX` full lines and one more line, each of `usize::MAX` units
/// at most.
pub proof fn lemma_lines_fit(full: nat, last: nat)
    requires
        full < usize::MAX,
        last <= usize::MAX,
    ensures
        full * usize::MAX + last == (full + 1) * usize::MAX - (usize::MAX - last),
        full * usize::MAX + last < u128::MAX,
{
    assert(full * usize::MAX + last == (full + 1) * usize::MAX - (usize::MAX - last))
        by (nonlinear_arith);
    assert((full + 1) * usize::MAX <= usize::MAX * usize::MAX) by (nonlinear_arith)
        requires
            full < usize::MAX,
    ;
    assert(usize::MAX * usize::MAX < u128::MAX) by (nonlinear_arith)
        requires
            usize::MAX <= 0xffff_ffff_ffff_ffff,
            u128::MAX == 0xffff_ffff_ffff_ffff_ffff_ffff_ffff_ffff,
    ;
}

/// The length of `s` in bytes, which bounds its length in characters.
pub fn byte_len(s: &str) -> (n: usize)
    ensures
        n == s.spec_bytes().len(),
        s@.len() <= n,
{
    proof {
        lemma_chars_fit_in_bytes(s@);
    }
    s.as_bytes().len()
}

/// Appends `n` copies of `c` to `out`.
pub fn push_repeated(out: &mut String, c: char, n: usize)
    ensures
        final(out)@ == old(out)@ + repeat(c, n as nat),
{
    let mut k: usize = 0;
    while k < n
        invariant
            k <= n,
            out@ == old(out)@ + repeat(c, k as nat),
        decreases n - k,
    {
        out.push(c);
        k += 1;
    }
}

} // verus!
