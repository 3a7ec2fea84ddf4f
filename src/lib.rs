//! Lexical front-end of a small expression language: a token model and a
//! scanner that turns source text into a stream of tokens.
pub mod token;
pub mod lexer;
pub mod ast;
pub mod laws;
