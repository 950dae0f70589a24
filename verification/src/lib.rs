//! A verified single-pass lexical scanner for a small C-like scripting
//! language: identifiers and keywords, integer and string literals, one-
//! and two-character operators, punctuation, line comments, and explicit
//! end-of-input and illegal-character sentinels.
//!
//! [`Lexer::next`] is specified exactly by the functional model in
//! [`model`], and [`laws`] proves the scanner's global properties over
//! that model.

pub mod laws;
pub mod lexer;
pub mod model;
pub mod token;

pub use lexer::Lexer;
pub use token::Token;
pub use token::TokenKind;
pub use token::lookup_identifier;
