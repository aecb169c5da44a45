//! A tokenizer for a small language that mixes C-like declarations with a
//! pipeline query notation, together with a fixed-length lookahead over the
//! tokens it produces.

pub mod charclass;
pub mod decimal;
pub mod text;
pub mod token;
pub mod scanner;
pub mod lexer;
pub mod lookahead;
pub mod pipeline;

pub use lookahead::MultiPeekCheckExt;
