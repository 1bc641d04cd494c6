//! A lexical scanner for a Go-like language.
//!
//! The scanner turns UTF-8 source text into the sequence of tokens that a
//! parser consumes. What it produces is stated over a mathematical model of
//! the source (a sequence of characters) and proved of the executable code.

pub mod lexer;
