//! The closed set of diagnostics the parser can produce. Errors are values:
//! they terminate parsing of the current construct and propagate to the
//! caller, carrying the byte offset of the offending token.

use vstd::prelude::*;

verus! {

use crate::lexer::TokenType;

/// A parse diagnostic. `TokenTypeMismatch` reports a token of the wrong kind
/// (or no token at all) where a given kind was required; `TokenMismatch`
/// reports a token whose kind or exact text differs from a required fixed
/// lexeme; `UnexpectedEOF` reports exhausted input where a token was required;
/// `UnknownKeyword` reports a keyword with no grammar rule at the top level;
/// `UnexpectedToken` reports a non-keyword token at the top level.
#[derive(Debug, PartialEq, Eq)]
pub enum ParseError {
    TokenTypeMismatch { expected: TokenType, found: Option<TokenType>, pos: usize },
    TokenMismatch {
        expected_type: TokenType,
        expected_content: Vec<u8>,
        found_type: TokenType,
        found_content: Vec<u8>,
        pos: usize,
    },
    UnexpectedEOF,
    UnknownKeyword { pos: usize },
    UnexpectedToken { found: TokenType, pos: usize },
}

/// The mathematical model of a `ParseError`: the same variants with the
/// carried lexemes as byte sequences.
pub enum ErrorView {
    TokenTypeMismatch { expected: TokenType, found: Option<TokenType>, pos: usize },
    TokenMismatch {
        expected_type: TokenType,
        expected_content: Seq<u8>,
        found_type: TokenType,
        found_content: Seq<u8>,
        pos: usize,
    },
    UnexpectedEOF,
    UnknownKeyword { pos: usize },
    UnexpectedToken { found: TokenType, pos: usize },
}

impl View for ParseError {
    type V = ErrorView;

    open spec fn view(&self) -> ErrorView {
        match self {
            ParseError::TokenTypeMismatch { expected, found, pos } => (ErrorView::TokenTypeMismatch {
                expected: *expected,
                found: *found,
                pos: *pos,
            }),
            ParseError::TokenMismatch {
                expected_type,
                expected_content,
                found_type,
                found_content,
                pos,
            } => (ErrorView::TokenMismatch {
                expected_type: *expected_type,
                expected_content: expected_content@,
                found_type: *found_type,
                found_content: found_content@,
                pos: *pos,
            }),
            ParseError::UnexpectedEOF => ErrorView::UnexpectedEOF,
            ParseError::UnknownKeyword { pos } => ErrorView::UnknownKeyword { pos: *pos },
            ParseError::UnexpectedToken { found, pos } => (ErrorView::UnexpectedToken {
                found: *found,
                pos: *pos,
            }),
        }
    }
}

} // verus!
