//! The line that the counting tool prints.

use vstd::prelude::*;
use crate::decimal::{decimal, push_decimal};
use crate::wc::count::Counts;
use crate::wc::flags::Flags;

verus! {

/// One count as it is printed: in decimal, with a space after it.
pub open spec fn field(n: nat) -> Seq<char> {
    decimal(n).push(' ')
}

/// What is printed for the three counts: lines, words, bytes in this order,
/// those that `flags` select, each in decimal with a space after it.
pub open spec fn report_spec(flags: Flags, lines: nat, words: nat, bytes: nat) -> Seq<char> {
    (if flags.lines { field(lines) } else { Seq::empty() })
    + (if flags.words { field(words) } else { Seq::empty() })
    + (if flags.bytes { field(bytes) } else { Seq::empty() })
}

/// The text to print for `counts`: the counts that `flags` select, in the
/// order lines, words, bytes, each followed by one space, and no line end.
pub fn report(flags: &Flags, counts: &Counts) -> (out: String)
    ensures
        out@ == report_spec(
            *flags,
            counts.lines as nat,
            counts.words as nat,
            counts.bytes as nat,
        ),
{
    let mut out = String::new();
    if flags.lines {
        push_decimal(&mut out, counts.lines as u128);
        out.push(' ');
    }
    if flags.words {
        push_decimal(&mut out, counts.words);
        out.push(' ');
    }
    if flags.bytes {
        push_decimal(&mut out, counts.bytes as u128);
        out.push(' ');
    }
    out
}

} // verus!
