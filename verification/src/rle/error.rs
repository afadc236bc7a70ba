//! What can go wrong in the run-length tool, and the text shown for it.

use vstd::prelude::*;
use vstd::string::StringExecFns;

verus! {

/// A failure of the run-length tool.
#[derive(Debug, PartialEq, Eq)]
pub enum RleError {
    /// No file path among the arguments.
    NoFileProvided,
    /// The file could not be opened or read; holds the system's message.
    Io(String),
    /// An argument that starts with `-` and is no known flag; holds it.
    InvalidArg(String),
    /// A run whose count is missing or too large; holds the digits that
    /// were found after the run's character (none where it is missing).
    ParseCount(String),
}

/// An [`RleError`] with its texts as sequences of characters.
pub enum RleErrorView {
    NoFileProvided,
    Io(Seq<char>),
    InvalidArg(Seq<char>),
    ParseCount(Seq<char>),
}

impl View for RleError {
    type V = RleErrorView;

    open spec fn view(&self) -> RleErrorView {
        match self {
            RleError::NoFileProvided => RleErrorView::NoFileProvided,
            RleError::Io(text) => RleErrorView::Io(text@),
            RleError::InvalidArg(arg) => RleErrorView::InvalidArg(arg@),
            RleError::ParseCount(digits) => RleErrorView::ParseCount(digits@),
        }
    }
}

impl RleErrorView {
    /// The line that tells the user of this failure.
    pub open spec fn message(self) -> Seq<char> {
        match self {
            RleErrorView::NoFileProvided => "Usage: rle <file_path>"@,
            RleErrorView::Io(text) => "io error: "@ + text,
            RleErrorView::InvalidArg(arg) => "Invalid arg: "@ + arg,
            RleErrorView::ParseCount(digits) => if digits.len() == 0 {
                "Error parsing number: cannot parse integer from empty string"@
            } else {
                "Error parsing number: number too large to fit in target type: "@ + digits
            },
        }
    }
}

impl RleError {
    /// The line that tells the user of this failure. It names the argument
    /// that was refused, repeats the system's message for a file that could
    /// not be read, and shows the digits of a count that is too large.
    pub fn message(&self) -> (text: String)
        ensures
            text@ == self@.message(),
    {
        match self {
            RleError::NoFileProvided => String::from_str("Usage: rle <file_path>"),
            RleError::Io(cause) => String::from_str("io error: ").concat(cause.as_str()),
            RleError::InvalidArg(arg) => String::from_str("Invalid arg: ").concat(arg.as_str()),
            RleError::ParseCount(digits) => {
                if digits.as_str().is_empty() {
                    String::from_str("Error parsing number: cannot parse integer from empty string")
                } else {
                    String::from_str(
                        "Error parsing number: number too large to fit in target type: ",
                    ).concat(digits.as_str())
                }
            },
        }
    }
}

} // verus!
