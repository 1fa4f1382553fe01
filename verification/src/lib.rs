//! A scanner for a small C-like scripting language: it turns source text into
//! a sequence of classified tokens.
//!
//! A [`Lexer`] is made over one source text, and each call of
//! [`Lexer::next_token`] yields the next token, up to `Eof`. What a call
//! yields is fixed by the lexical grammar in [`grammar`], a mathematical
//! function of the input bytes; [`laws`] holds what is proved of it for every
//! input.
//!
//! The scanner works on bytes. The language is written in ASCII, and on ASCII
//! text every token is what the text says. A byte above `0x7F` is no letter,
//! digit or white space: outside a string literal it is an `Illegal` token of
//! its own, and inside one it is one character of the literal, the one with
//! the same code point. Multi-byte UTF-8 sequences are not decoded.

pub mod classes;
pub mod grammar;
pub mod laws;
pub mod lemmas;
pub mod scanner;
pub mod text;
pub mod token;

pub use scanner::Lexer;
