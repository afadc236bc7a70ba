//! Counting lines, words and bytes of a text.

pub mod args;
pub mod count;
pub mod error;
pub mod flags;
pub mod laws;
pub mod report;
pub mod run;
pub mod words;
