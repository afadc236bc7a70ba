//! The arguments of the counting tool: `[-l] [-w] [-c] <file_path>`.

use vstd::prelude::*;
use crate::tokens::{
    first_unknown, flag, is_flag, last_path, lemma_unknown_found, starts_with_dash,
};
use crate::wc::error::{WcError, WcErrorView};
use crate::wc::flags::Flags;

verus! {

/// What the command line asks for.
#[derive(Debug, PartialEq, Eq)]
pub struct Args {
    pub flags: Flags,
    pub file_path: String,
}

/// [`Args`] with the path as a sequence of characters.
pub struct ArgsView {
    pub flags: Flags,
    pub file_path: Seq<char>,
}

impl View for Args {
    type V = ArgsView;

    open spec fn view(&self) -> ArgsView {
        ArgsView { flags: self.flags, file_path: self.file_path@ }
    }
}

/// The options that the tool knows: `-l`, `-w` and `-c`.
pub open spec fn known_flags() -> Set<Seq<char>> {
    set![flag('l'), flag('w'), flag('c')]
}

/// The counts that `tokens` name, one switch for each option that occurs.
pub open spec fn named_flags(tokens: Seq<Seq<char>>) -> Flags {
    Flags {
        lines: tokens.contains(flag('l')),
        words: tokens.contains(flag('w')),
        bytes: tokens.contains(flag('c')),
    }
}

/// The counts that `tokens` select: those they name, and all three where
/// they name none.
pub open spec fn selected_flags(tokens: Seq<Seq<char>>) -> Flags {
    if named_flags(tokens).none_set() {
        Flags { lines: true, words: true, bytes: true }
    } else {
        named_flags(tokens)
    }
}

/// What `tokens` ask for. The first token that starts with a dash and is
/// none of `-l`, `-w`, `-c` is refused, before anything else is looked at.
/// Otherwise the options select the counts, and the last token without a
/// dash is the path; without one there is nothing to count.
pub open spec fn parse(tokens: Seq<Seq<char>>) -> Result<ArgsView, WcErrorView> {
    match first_unknown(tokens, known_flags()) {
        Some(token) => Err(WcErrorView::InvalidArg(token)),
        None => match last_path(tokens) {
            None => Err(WcErrorView::NoFileProvided),
            Some(path) => Ok(ArgsView { flags: selected_flags(tokens), file_path: path }),
        },
    }
}

impl Args {
    /// Reads the arguments that follow the program's name.
    pub fn new(tokens: &Vec<String>) -> (res: Result<Args, WcError>)
        ensures
            match parse(tokens.deep_view()) {
                Ok(asked) => res matches Ok(args) && args@ == asked,
                Err(refusal) => res matches Err(e) && e@ == refusal,
            },
    {
        let ghost all = tokens.deep_view();
        let mut flags = Flags::new();
        let mut file_path: Option<String> = None;
        for i in 0..tokens.len()
            invariant
                all == tokens.deep_view(),
                first_unknown(all.take(i as int), known_flags()) is None,
                flags == named_flags(all.take(i as int)),
                match last_path(all.take(i as int)) {
                    Some(path) => file_path matches Some(found) && found@ == path,
                    None => file_path is None,
                },
        {
            let token = &tokens[i];
            proof {
                assert(all.take(i + 1).drop_last() =~= all.take(i as int));
                assert(flag('l')[1] != flag('w')[1] && flag('l')[1] != flag('c')[1] && flag('w')[1]
                    != flag('c')[1]);
            }
            if is_flag(token.as_str(), 'l') {
                flags.lines = true;
            } else if is_flag(token.as_str(), 'w') {
                flags.words = true;
            } else if is_flag(token.as_str(), 'c') {
                flags.bytes = true;
            } else if starts_with_dash(token.as_str()) {
                proof {
                    lemma_unknown_found(all, i as int, known_flags());
                }
                return Err(WcError::InvalidArg(token.clone()));
            } else {
                file_path = Some(token.clone());
            }
        }
        assert(all.take(tokens.len() as int) =~= all);
        if flags.none_set() {
            flags.set_all();
        }
        match file_path {
            Some(path) => Ok(Args { flags, file_path: path }),
            None => Err(WcError::NoFileProvided),
        }
    }
}

} // verus!
