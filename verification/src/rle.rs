//! Run-length coding of text: each run of one repeated character is written
//! as the character followed by the decimal length of the run.

pub mod args;
pub mod decode;
pub mod encode;
pub mod error;
pub mod laws;
pub mod run;
pub mod runs;
