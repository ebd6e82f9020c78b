//! Splits a stream of bytes into the JSON values that it holds back to back.
//!
//! The bytes are decoded into scalars one by one ([`chars`]); the scalars are
//! gathered, and each closing bracket or brace is taken as the possible end
//! of a value ([`splitter`]). Both are written as state machines that are
//! told what a read of the source gave, so that they can be driven by any
//! source of bytes. [`Iter`] drives them over bytes held in memory.

pub mod chars;
pub mod iter;
pub mod json;
pub mod laws;
pub mod limits;
pub mod source;
pub mod splitter;
pub mod width;

pub use crate::chars::{Chars, CharsError, ReadOutcome, Step};
pub use crate::iter::Iter;
pub use crate::source::{Decoded, Source};
pub use crate::splitter::{Progress, Splitter};
pub use crate::width::utf8_char_width;
