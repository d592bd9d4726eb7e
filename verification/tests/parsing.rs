use chparse::error::ParseError;
use chparse::lexer::{Lexer, TokenType};
use chparse::parser::{Node, Parser};

fn parse_src(src: &[u8]) -> Result<Vec<Node<'_>>, ParseError> {
    let lexer = Lexer::new(src);
    let mut parser = Parser::new(src, lexer);
    parser.parse()
}

fn fn_decl<'a>(modifiers: Vec<Node<'a>>, name: &'a [u8]) -> Node<'a> {
    Node::FunctionDeclaration {
        modifiers,
        ident: Box::new(Node::Identifier(name)),
        params: vec![],
        block: Box::new(Node::Block(vec![])),
    }
}

#[test]
fn minimal_function() {
    assert_eq!(parse_src(b"fn a() {}"), Ok(vec![fn_decl(vec![], b"a")]));
}

#[test]
fn modifier_attachment() {
    assert_eq!(
        parse_src(b"pub fn a() {}"),
        Ok(vec![fn_decl(vec![Node::PublicKeyword], b"a")])
    );
    // Modifiers are drained, not deduplicated.
    assert_eq!(
        parse_src(b"pub pub fn a() {}"),
        Ok(vec![fn_decl(vec![Node::PublicKeyword, Node::PublicKeyword], b"a")])
    );
}

#[test]
fn modifiers_attach_to_the_next_declaration_only() {
    assert_eq!(
        parse_src(b"pub fn a() {} fn b() {}"),
        Ok(vec![fn_decl(vec![Node::PublicKeyword], b"a"), fn_decl(vec![], b"b")])
    );
}

#[test]
fn missing_identifier() {
    assert_eq!(
        parse_src(b"fn () {}"),
        Err(ParseError::TokenTypeMismatch {
            expected: TokenType::Identifier,
            found: Some(TokenType::Punctuator),
            pos: 3,
        })
    );
}

#[test]
fn missing_identifier_at_end_of_input() {
    assert_eq!(
        parse_src(b"fn"),
        Err(ParseError::TokenTypeMismatch {
            expected: TokenType::Identifier,
            found: None,
            pos: 0,
        })
    );
}

#[test]
fn missing_open_paren() {
    assert_eq!(
        parse_src(b"fn a {}"),
        Err(ParseError::TokenMismatch {
            expected_type: TokenType::Punctuator,
            expected_content: b"(".to_vec(),
            found_type: TokenType::Punctuator,
            found_content: b"{".to_vec(),
            pos: 5,
        })
    );
}

#[test]
fn truncated_input() {
    assert_eq!(parse_src(b"fn a"), Err(ParseError::UnexpectedEOF));
}

#[test]
fn body_scan_stops_at_first_close_brace() {
    // The body scan discards tokens through the first `}` without tracking
    // nesting — a documented limitation of this grammar subset. Here the
    // first `}` really closes the body, so the trailing identifier is the
    // next top-level token, and a non-keyword there is an error.
    assert_eq!(
        parse_src(b"fn a() { g(); } extra"),
        Err(ParseError::UnexpectedToken { found: TokenType::Identifier, pos: 16 })
    );
    // With nested braces the scan stops early: the second `}` is left over
    // as a top-level token.
    assert_eq!(
        parse_src(b"fn a() { { } }"),
        Err(ParseError::UnexpectedToken { found: TokenType::Punctuator, pos: 13 })
    );
}

#[test]
fn body_tokens_are_discarded() {
    // Whatever stands between `(` and the first `}` is dropped: the node
    // always has an empty parameter list and an empty block.
    assert_eq!(
        parse_src(b"fn a(x: i8, y) { val z = \"s\"; return z; }"),
        Ok(vec![fn_decl(vec![], b"a")])
    );
}

#[test]
fn unknown_keyword_is_an_error() {
    assert_eq!(
        parse_src(b"var x = 1;"),
        Err(ParseError::UnknownKeyword { pos: 0 })
    );
    assert_eq!(
        parse_src(b"fn a() {} return"),
        Err(ParseError::UnknownKeyword { pos: 10 })
    );
}

#[test]
fn non_keyword_at_top_level_is_an_error() {
    assert_eq!(
        parse_src(b"a"),
        Err(ParseError::UnexpectedToken { found: TokenType::Identifier, pos: 0 })
    );
    assert_eq!(
        parse_src(b"1 fn a() {}"),
        Err(ParseError::UnexpectedToken { found: TokenType::Literal, pos: 0 })
    );
}

#[test]
fn empty_source_parses_to_nothing() {
    assert_eq!(parse_src(b""), Ok(vec![]));
}

#[test]
fn trailing_modifier_is_dropped_at_end_of_input() {
    // A pending `pub` with no following declaration is dropped cleanly.
    assert_eq!(parse_src(b"pub"), Ok(vec![]));
    assert_eq!(parse_src(b"fn a() {} pub"), Ok(vec![fn_decl(vec![], b"a")]));
}

#[test]
fn unrecognized_character_truncates_the_parse() {
    // The tokenizer ends its sequence at `%`, so the parse sees only the
    // complete declaration before it and succeeds.
    assert_eq!(parse_src(b"fn a() {} % fn b() {}"), Ok(vec![fn_decl(vec![], b"a")]));
}
