//! The counts of a file, from its lines and its size.

use vstd::prelude::*;
use crate::text::lemma_lines_fit;
use crate::wc::flags::Flags;
use crate::wc::words::{count_words, word_count};

verus! {

/// The three counts of a file. A count that was not asked for is zero.
#[derive(Clone, Copy, Debug, PartialEq, Eq, Structural)]
pub struct Counts {
    /// The number of lines.
    pub lines: usize,
    /// The number of words of all lines together.
    pub words: u128,
    /// The size of the file in bytes.
    pub bytes: u64,
}

/// The number of words of all `lines` together.
pub open spec fn total_words(lines: Seq<Seq<char>>) -> nat
    decreases lines.len(),
{
    if lines.len() == 0 {
        0
    } else {
        total_words(lines.drop_last()) + word_count(lines.last())
    }
}

/// The counts that `flags` select, of a file that holds `lines` and is
/// `file_size` bytes long: the number of lines, the words of all lines, and
/// the size as it was given. The size is not looked at unless asked for.
pub fn tally(flags: &Flags, lines: &Vec<String>, file_size: u64) -> (counts: Counts)
    ensures
        counts.lines == if flags.lines { lines.len() } else { 0 },
        counts.words == if flags.words { total_words(lines.deep_view()) } else { 0 },
        counts.bytes == if flags.bytes { file_size } else { 0 },
{
    let ghost all = lines.deep_view();
    let mut words: u128 = 0;
    if flags.words {
        for i in 0..lines.len()
            invariant
                all == lines.deep_view(),
                words == total_words(all.take(i as int)),
                words <= i * usize::MAX,
        {
            let line = lines[i].as_str();
            proof {
                assert(all.take(i + 1).drop_last() =~= all.take(i as int));
            }
            let in_line = count_words(line);
            proof {
                lemma_lines_fit(i as nat, in_line as nat);
            }
            words = words + in_line as u128;
        }
        assert(all.take(lines.len() as int) =~= all);
    }
    Counts {
        lines: if flags.lines { lines.len() } else { 0 },
        words,
        bytes: if flags.bytes { file_size } else { 0 },
    }
}

} // verus!
