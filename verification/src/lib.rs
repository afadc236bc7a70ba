//! Two small text tools as a verified library: run-length coding of text and
//! line/word/byte counting.

pub mod decimal;
pub mod rle;
pub mod text;
pub mod tokens;
pub mod wc;
