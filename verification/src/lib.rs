//! A character-level tokenizer and recursive-descent parser for a small
//! programming-language dialect: source bytes are turned into a stream of
//! spanned tokens, and the token stream into a sequence of top-level
//! declarations or a structured parse error.

pub mod error;
pub mod lexer;
pub mod parser;
