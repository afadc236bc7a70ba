//! The arguments of the run-length tool: `[-d] <file_path>`.

use vstd::prelude::*;
use crate::rle::error::{RleError, RleErrorView};
use crate::tokens::{
    first_unknown, flag, is_flag, last_path, lemma_unknown_found, starts_with_dash,
};

verus! {

/// The one switch of the tool: decode, or else encode.
#[derive(Clone, Copy, Debug, PartialEq, Eq, Structural)]
pub struct Flags {
    pub use_decoder: bool,
}

impl Flags {
    /// The switch as it stands without arguments: encode.
    pub fn new() -> (flags: Flags)
        ensures
            !flags.use_decoder,
    {
        Flags { use_decoder: false }
    }
}

/// What the command line asks for.
#[derive(Debug, PartialEq, Eq)]
pub struct Args {
    pub flags: Flags,
    pub file_path: String,
}

/// [`Args`] with the path as a sequence of characters.
pub struct ArgsView {
    pub flags: Flags,
    pub file_path: Seq<char>,
}

impl View for Args {
    type V = ArgsView;

    open spec fn view(&self) -> ArgsView {
        ArgsView { flags: self.flags, file_path: self.file_path@ }
    }
}

/// The options that the tool knows: `-d`.
pub open spec fn known_flags() -> Set<Seq<char>> {
    set![flag('d')]
}

/// What `tokens` ask for. The first token that starts with a dash and is
/// not `-d` is refused, before anything else is looked at. Otherwise `-d`
/// anywhere selects decoding, and the last token without a dash is the
/// path; without one there is nothing to work on.
pub open spec fn parse(tokens: Seq<Seq<char>>) -> Result<ArgsView, RleErrorView> {
    match first_unknown(tokens, known_flags()) {
        Some(token) => Err(RleErrorView::InvalidArg(token)),
        None => match last_path(tokens) {
            None => Err(RleErrorView::NoFileProvided),
            Some(path) => Ok(
                ArgsView {
                    flags: Flags { use_decoder: tokens.contains(flag('d')) },
                    file_path: path,
                },
            ),
        },
    }
}

impl Args {
    /// Reads the arguments that follow the program's name.
    pub fn new(tokens: &Vec<String>) -> (res: Result<Args, RleError>)
        ensures
            match parse(tokens.deep_view()) {
                Ok(asked) => res matches Ok(args) && args@ == asked,
                Err(refusal) => res matches Err(e) && e@ == refusal,
            },
    {
        let ghost all = tokens.deep_view();
        let mut flags = Flags::new();
        let mut file_path: Option<String> = None;
        for i in 0..tokens.len()
            invariant
                all == tokens.deep_view(),
                first_unknown(all.take(i as int), known_flags()) is None,
                flags.use_decoder == all.take(i as int).contains(flag('d')),
                match last_path(all.take(i as int)) {
                    Some(path) => file_path matches Some(found) && found@ == path,
                    None => file_path is None,
                },
        {
            let token = &tokens[i];
            proof {
                assert(all.take(i + 1).drop_last() =~= all.take(i as int));
            }
            if is_flag(token.as_str(), 'd') {
                flags.use_decoder = true;
            } else if starts_with_dash(token.as_str()) {
                proof {
                    lemma_unknown_found(all, i as int, known_flags());
                }
                return Err(RleError::InvalidArg(token.clone()));
            } else {
                file_path = Some(token.clone());
            }
        }
        assert(all.take(tokens.len() as int) =~= all);
        match file_path {
            Some(path) => Ok(Args { flags, file_path: path }),
            None => Err(RleError::NoFileProvided),
        }
    }
}

} // verus!
