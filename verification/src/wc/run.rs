//! One pass of the tool over the lines of a file.

use vstd::prelude::*;
use crate::wc::count::{tally, total_words};
use crate::wc::flags::Flags;
use crate::wc::report::{report, report_spec};

verus! {

/// Counts what `flags` select in a file that holds `lines` and is
/// `file_size` bytes long, and gives the text to print: the number of
/// lines, the number of words of all lines, and the size, those that were
/// asked for.
pub fn run(flags: &Flags, lines: &Vec<String>, file_size: u64) -> (out: String)
    ensures
        out@ == report_spec(
            *flags,
            lines.len() as nat,
            total_words(lines.deep_view()),
            file_size as nat,
        ),
{
    let counts = tally(flags, lines, file_size);
    report(flags, &counts)
}

} // verus!
