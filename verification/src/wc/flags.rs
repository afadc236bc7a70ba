//! The three switches that select what is counted.

use vstd::prelude::*;

verus! {

/// Which of the three counts were asked for.
#[derive(Clone, Copy, Debug, PartialEq, Eq, Structural)]
pub struct Flags {
    pub lines: bool,
    pub words: bool,
    pub bytes: bool,
}

impl Flags {
    /// No count selected.
    pub fn new() -> (flags: Flags)
        ensures
            flags == (Flags { lines: false, words: false, bytes: false }),
    {
        Flags { lines: false, words: false, bytes: false }
    }

    /// True when no count is selected.
    pub open spec fn spec_none_set(&self) -> bool {
        !self.lines && !self.words && !self.bytes
    }

    /// True when no count is selected.
    #[verifier::when_used_as_spec(spec_none_set)]
    pub fn none_set(&self) -> (none: bool)
        ensures
            none == self.spec_none_set(),
    {
        !self.lines && !self.words && !self.bytes
    }

    /// Selects all three counts.
    pub fn set_all(&mut self)
        ensures
            *final(self) == (Flags { lines: true, words: true, bytes: true }),
    {
        self.lines = true;
        self.words = true;
        self.bytes = true;
    }
}

} // verus!
