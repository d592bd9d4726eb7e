use chparse::lexer::{Lexer, Token, TokenType};

fn tokens_of(src: &[u8]) -> Vec<Token> {
    let mut lexer = Lexer::new(src);
    let mut out = Vec::new();
    while let Some(t) = lexer.next() {
        out.push(t);
    }
    out
}

fn spans_of(src: &[u8]) -> Vec<(TokenType, usize, usize)> {
    tokens_of(src).into_iter().map(|t| (t.token_type, t.start, t.end)).collect()
}

#[test]
fn operator_run_maximal_munch() {
    // An identifier, one operator token spanning the whole `+-=` run, an identifier.
    assert_eq!(
        spans_of(b"a+-=b"),
        vec![
            (TokenType::Identifier, 0, 1),
            (TokenType::Operator, 1, 4),
            (TokenType::Identifier, 4, 5),
        ]
    );
    let toks = tokens_of(b"a+-=b");
    assert_eq!(&b"a+-=b"[toks[1].start..toks[1].end], b"+-=");
}

#[test]
fn star_and_bang_are_single_character_operators() {
    assert_eq!(
        spans_of(b"*!"),
        vec![(TokenType::Operator, 0, 1), (TokenType::Operator, 1, 2)]
    );
    // `*` does not join a `+-=<>` run; the run restarts after it.
    assert_eq!(
        spans_of(b"a*=b"),
        vec![
            (TokenType::Identifier, 0, 1),
            (TokenType::Operator, 1, 2),
            (TokenType::Operator, 2, 3),
            (TokenType::Identifier, 3, 4),
        ]
    );
}

#[test]
fn keywords_are_classified() {
    for kw in [&b"pub"[..], b"var", b"val", b"fn", b"return", b"true", b"false"] {
        let toks = tokens_of(kw);
        assert_eq!(toks.len(), 1);
        assert_eq!(toks[0].token_type, TokenType::Keyword);
        assert_eq!(toks[0].start, 0);
        assert_eq!(toks[0].end, kw.len());
    }
}

#[test]
fn near_keywords_are_identifiers() {
    for id in [&b"pubs"[..], b"fns", b"retur", b"returns", b"_", b"tru", b"x1"] {
        let toks = tokens_of(id);
        assert_eq!(toks.len(), 1, "{:?}", id);
        assert_eq!(toks[0].token_type, TokenType::Identifier);
    }
}

#[test]
fn number_with_many_dots_is_one_literal() {
    // No validation that at most one `.` occurs: `1.2.3` is one token.
    assert_eq!(spans_of(b"1.2.3"), vec![(TokenType::Literal, 0, 5)]);
}

#[test]
fn string_literal_spans_include_quotes() {
    assert_eq!(spans_of(b"\"ab\""), vec![(TokenType::Literal, 0, 4)]);
}

#[test]
fn string_escape_skips_quote() {
    // "a\"b" — the escaped quote does not close the literal.
    let src = b"\"a\\\"b\"";
    assert_eq!(spans_of(src), vec![(TokenType::Literal, 0, 6)]);
}

#[test]
fn unterminated_string_ends_at_end_of_input() {
    assert_eq!(spans_of(b"\"abc"), vec![(TokenType::Literal, 0, 4)]);
    // A trailing backslash must not scan past the end of the source.
    assert_eq!(spans_of(b"\"a\\"), vec![(TokenType::Literal, 0, 3)]);
}

#[test]
fn punctuators_are_single_characters() {
    assert_eq!(
        spans_of(b"(){},:;"),
        (0..7usize).map(|i| (TokenType::Punctuator, i, i + 1)).collect::<Vec<_>>()
    );
}

#[test]
fn whitespace_is_skipped_not_tokenized() {
    assert_eq!(spans_of(b"  fn\t \n x "), vec![
        (TokenType::Keyword, 2, 4),
        (TokenType::Identifier, 8, 9),
    ]);
}

#[test]
fn unrecognized_character_ends_the_sequence() {
    // The remainder of the source after `$` is silently discarded.
    let mut lexer = Lexer::new(b"a $ b");
    let first = lexer.next().unwrap();
    assert_eq!((first.token_type, first.start, first.end), (TokenType::Identifier, 0, 1));
    assert_eq!(lexer.next(), None);
    assert_eq!(lexer.next(), None);
}

#[test]
fn empty_source_has_no_tokens() {
    assert_eq!(tokens_of(b""), vec![]);
}

#[test]
fn spans_are_monotonic_and_nonempty() {
    // A concrete instance of the span laws: start <= end <= next start, and
    // every lexeme is non-empty.
    let src = b"pub fn a() { \"s\" 1.0 <= }";
    let toks = tokens_of(src);
    assert!(!toks.is_empty());
    for w in toks.windows(2) {
        assert!(w[0].end <= w[1].start);
    }
    for t in &toks {
        assert!(t.start < t.end);
        assert!(t.end <= src.len());
        assert!(!src[t.start..t.end].is_empty());
    }
}
