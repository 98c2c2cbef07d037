//! Lexical analyzer for an interface-definition language with
//! Thrift/Protobuf-like schema syntax.
//!
//! The scanner turns raw source bytes into a stream of tokens (keywords,
//! punctuation, identifiers, integer literals, string literals and `//`
//! line comments are recognized), tracking the line and column of every
//! lexeme for diagnostics, with one token of lookahead.

pub mod token;
pub mod scan;
pub mod lexer;
