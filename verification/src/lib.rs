//! The lexical stage of a language front end: a scanner that turns source
//! text into a stream of tokens, one per pull.
//!
//! The tokens are punctuation and operators of one or two characters. Blanks,
//! newlines and line comments separate them; any other character is reported
//! as an error, one at a time, and scanning goes on behind it.
//!
//! - [`token_kind`] and [`token`] hold the data that a pull yields.
//! - [`scanner`] holds the scanner and its errors.
//! - [`grammar`] states the lexical rules that the scanner is proved to follow.
//! - [`laws`] proves what follows from those rules for every pull.

mod encoding;
pub mod grammar;
pub mod laws;
pub mod scanner;
pub mod token;
pub mod token_kind;
