//! A lossless, single-pass lexical scanner for syntax highlighting.
//!
//! The scanner walks a document's characters once, tracking string literals,
//! one-line comments and multi-line comments, and produces one ordered token
//! list per source line.  Concatenating the text of every token, line by
//! line, reproduces the input with carriage returns removed, so a renderer
//! can rely on the output for exact cursor and column placement.

pub mod chars;
pub mod laws;
pub mod line;
pub mod scanner;
pub mod token;
