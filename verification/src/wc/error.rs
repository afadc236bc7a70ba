//! What can go wrong in the counting tool, and the text shown for it.

use vstd::prelude::*;
use vstd::string::StringExecFns;

verus! {

/// A failure of the counting tool.
#[derive(Debug, PartialEq, Eq)]
pub enum WcError {
    /// No file path among the arguments.
    NoFileProvided,
    /// The file could not be opened or read; holds the system's message.
    Io(String),
    /// An argument that starts with `-` and is no known flag; holds it.
    InvalidArg(String),
}

/// A [`WcError`] with its texts as sequences of characters.
pub enum WcErrorView {
    NoFileProvided,
    Io(Seq<char>),
    InvalidArg(Seq<char>),
}

impl View for WcError {
    type V = WcErrorView;

    open spec fn view(&self) -> WcErrorView {
        match self {
            WcError::NoFileProvided => WcErrorView::NoFileProvided,
            WcError::Io(text) => WcErrorView::Io(text@),
            WcError::InvalidArg(arg) => WcErrorView::InvalidArg(arg@),
        }
    }
}

impl WcErrorView {
    /// The text that tells the user of this failure.
    pub open spec fn message(self) -> Seq<char> {
        match self {
            WcErrorView::NoFileProvided => "Usage: wc [-l] [-w] [-c] <file_path>"@,
            WcErrorView::Io(text) => "Error reading file: "@ + text,
            WcErrorView::InvalidArg(arg) => "Invalid arg: "@ + arg,
        }
    }
}

impl WcError {
    /// The text that tells the user of this failure. It names the argument
    /// that was refused and repeats the system's message for a file that
    /// could not be read.
    pub fn message(&self) -> (text: String)
        ensures
            text@ == self@.message(),
    {
        match self {
            WcError::NoFileProvided => String::from_str("Usage: wc [-l] [-w] [-c] <file_path>"),
            WcError::Io(cause) => String::from_str("Error reading file: ").concat(cause.as_str()),
            WcError::InvalidArg(arg) => String::from_str("Invalid arg: ").concat(arg.as_str()),
        }
    }
}

} // verus!
