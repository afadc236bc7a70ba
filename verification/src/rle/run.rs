//! One pass of the tool over the lines of a file.

use vstd::prelude::*;
use crate::rle::args::Flags;
use crate::rle::decode::{decode, decode_spec};
use crate::rle::encode::{encode, encode_spec};
use crate::rle::error::{RleError, RleErrorView};

verus! {

/// What the tool makes of the text `text` under `flags`: its run-length
/// text, or with the decoder the text that it stands for.
pub open spec fn run_spec(flags: Flags, text: Seq<char>) -> Result<Seq<char>, RleErrorView> {
    if flags.use_decoder {
        match decode_spec(text) {
            Ok(plain) => Ok(plain),
            Err(digits) => Err(RleErrorView::ParseCount(digits)),
        }
    } else {
        Ok(encode_spec(text))
    }
}

/// Encodes the lines of a file, or decodes them where `flags` say so, and
/// gives the text to print. Encoding never fails.
pub fn run(flags: &Flags, lines: &Vec<String>) -> (res: Result<String, RleError>)
    ensures
        match run_spec(*flags, lines.deep_view().flatten()) {
            Ok(text) => res matches Ok(out) && out@ == text,
            Err(failure) => res matches Err(e) && e@ == failure,
        },
{
    if flags.use_decoder {
        decode(lines)
    } else {
        Ok(encode(lines))
    }
}

} // verus!
