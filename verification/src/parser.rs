//! The parser: consumes the token stream one token at a time and produces
//! either the sequence of top-level declarations or the first parse error,
//! fail-fast, with no error recovery.

use vstd::prelude::*;

verus! {

use crate::lexer::{Lexer, Token, TokenType, lexeme, range_matches};
use crate::error::{ParseError, ErrorView};

/// An abstract-syntax-tree node. Only `PublicKeyword`, `Identifier`,
/// `FunctionDeclaration` and the (currently empty) `Block` are constructed by
/// the parser today; the remaining variants are declared vocabulary for the
/// grammar, not yet reachable. Nodes that reference source text borrow from
/// the source buffer.
#[derive(Debug, PartialEq, Eq)]
pub enum Node<'a> {
    PublicKeyword,
    Identifier(&'a [u8]),
    StringLiteral(&'a [u8]),
    I8Literal(i8),
    I16Literal(i16),
    I32Literal(i32),
    I64Literal(i64),
    BoolLiteral(bool),
    Parameter { name: Box<Node<'a>>, ty: Option<Box<Node<'a>>> },
    FunctionDeclaration {
        modifiers: Vec<Node<'a>>,
        ident: Box<Node<'a>>,
        params: Vec<Node<'a>>,
        block: Box<Node<'a>>,
    },
    Block(Vec<Node<'a>>),
    VariableDeclaration { modifiers: Vec<Node<'a>>, ident: Box<Node<'a>>, value: Box<Node<'a>> },
    CallExpression { ident: Box<Node<'a>>, params: Vec<Node<'a>> },
    ReturnStatement(Box<Node<'a>>),
}

/// The mathematical description of a parsed function declaration: how many
/// modifiers were attached (each one is a `PublicKeyword`, the only modifier
/// in the grammar) and the identifier's lexeme. The parameter list and block
/// are always empty under the current grammar.
pub struct DeclView {
    pub mods: nat,
    pub name: Seq<u8>,
}

/// Whether the node `n` is exactly the function declaration `d` describes.
pub open spec fn decl_matches(n: Node, d: DeclView) -> bool {
    match n {
        Node::FunctionDeclaration { modifiers, ident, params, block } => {
            &&& modifiers@.len() == d.mods
            &&& (forall|k: int|
                0 <= k < modifiers@.len() ==> (#[trigger] modifiers@[k]) matches Node::PublicKeyword)
            &&& (*ident matches Node::Identifier(s) && s@ == d.name)
            &&& params@.len() == 0
            &&& (*block matches Node::Block(stmts) && stmts@.len() == 0)
        },
        _ => false,
    }
}

/// Prefix an already-parsed run of declarations onto the outcome of parsing
/// the rest of the input.
pub open spec fn prepend_decls(
    done: Seq<DeclView>,
    rest: Result<Seq<DeclView>, ErrorView>,
) -> Result<Seq<DeclView>, ErrorView> {
    match rest {
        Ok(ds) => Ok(done + ds),
        Err(e) => Err(e),
    }
}

/// The tokens left after the parser's body scan: every token up to and
/// including the first one whose text is exactly `}` is discarded, whatever
/// its kind and whatever nesting surrounds it — a known limitation of this
/// grammar subset, preserved by design.
pub open spec fn spec_skip_body(src: Seq<u8>, toks: Seq<Token>) -> Seq<Token>
    decreases toks.len(),
{
    if toks.len() == 0 {
        toks
    } else if lexeme(src, toks[0]) == seq![125u8] {
        toks.drop_first()
    } else {
        spec_skip_body(src, toks.drop_first())
    }
}

proof fn lemma_skip_body_len(src: Seq<u8>, toks: Seq<Token>)
    ensures
        spec_skip_body(src, toks).len() <= toks.len(),
    decreases toks.len(),
{
    if toks.len() > 0 && !(lexeme(src, toks[0]) == seq![125u8]) {
        lemma_skip_body_len(src, toks.drop_first());
    }
}

/// What parsing a function declaration does to the token stream `toks` (the
/// tokens after the `fn` keyword), with `pending` modifiers waiting: the
/// outcome, and the tokens left over. An identifier is required, then a `(`
/// punctuator, then the body scan discards tokens through the first `}`.
pub open spec fn spec_parse_function(src: Seq<u8>, toks: Seq<Token>, pending: nat) -> (Result<
    DeclView,
    ErrorView,
>, Seq<Token>) {
    if toks.len() == 0 {
        (
            Err(ErrorView::TokenTypeMismatch { expected: TokenType::Identifier, found: None, pos: 0 }),
            toks,
        )
    } else if toks[0].token_type != TokenType::Identifier {
        (
            Err(ErrorView::TokenTypeMismatch {
                expected: TokenType::Identifier,
                found: Some(toks[0].token_type),
                pos: toks[0].start,
            }),
            toks.drop_first(),
        )
    } else if toks.len() == 1 {
        (Err(ErrorView::UnexpectedEOF), toks.drop_first())
    } else if !(toks[1].token_type == TokenType::Punctuator && lexeme(src, toks[1]) == seq![40u8]) {
        (
            Err(ErrorView::TokenMismatch {
                expected_type: TokenType::Punctuator,
                expected_content: seq![40u8],
                found_type: toks[1].token_type,
                found_content: lexeme(src, toks[1]),
                pos: toks[1].start,
            }),
            toks.skip(2),
        )
    } else {
        (
            Ok(DeclView { mods: pending, name: lexeme(src, toks[0]) }),
            spec_skip_body(src, toks.skip(2)),
        )
    }
}

/// The parser's top-level loop on the token stream `toks` with `pending`
/// modifiers collected so far: a `pub` keyword joins the pending modifiers, a
/// `fn` keyword parses a function declaration that drains them, any other
/// keyword or any non-keyword token is the first error. The loop ends cleanly
/// when the tokens are exhausted (pending modifiers are then dropped).
pub open spec fn spec_parse(src: Seq<u8>, toks: Seq<Token>, pending: nat) -> Result<
    Seq<DeclView>,
    ErrorView,
>
    decreases toks.len()
        via spec_parse_decreases
{
    if toks.len() == 0 {
        Ok(seq![])
    } else {
        let t = toks[0];
        if t.token_type == TokenType::Keyword {
            if lexeme(src, t) == seq![112u8, 117u8, 98u8] {
                spec_parse(src, toks.drop_first(), pending + 1)
            } else if lexeme(src, t) == seq![102u8, 110u8] {
                match spec_parse_function(src, toks.drop_first(), pending).0 {
                    Ok(d) => match spec_parse(
                        src,
                        spec_parse_function(src, toks.drop_first(), pending).1,
                        0,
                    ) {
                        Ok(ds) => Ok(seq![d] + ds),
                        Err(e) => Err(e),
                    },
                    Err(e) => Err(e),
                }
            } else {
                Err(ErrorView::UnknownKeyword { pos: t.start })
            }
        } else {
            Err(ErrorView::UnexpectedToken { found: t.token_type, pos: t.start })
        }
    }
}

#[via_fn]
proof fn spec_parse_decreases(src: Seq<u8>, toks: Seq<Token>, pending: nat) {
    if toks.len() >= 3 {
        lemma_skip_body_len(src, toks.drop_first().skip(2));
    }
}

/// The parser. State is the token source plus the pending-modifiers buffer:
/// modifiers accumulated since the last declaration, drained into the next
/// declaration as it is built.
pub struct Parser<'a> {
    src: &'a [u8],
    lexer: Lexer<'a>,
    modifiers: Vec<Node<'a>>,
}

impl<'a> Parser<'a> {
    /// The source buffer the parser slices lexemes from.
    pub closed spec fn src_seq(&self) -> Seq<u8> {
        self.src@
    }

    /// The tokens not yet consumed.
    pub closed spec fn remaining(&self) -> Seq<Token> {
        self.lexer.tokens()
    }

    /// How many modifiers are pending (each is a `PublicKeyword`, the only
    /// modifier in the grammar).
    pub closed spec fn pending(&self) -> nat {
        self.modifiers@.len()
    }

    /// The token source scans the same buffer the parser slices, and every
    /// pending modifier is a `PublicKeyword`.
    pub closed spec fn wf(&self) -> bool {
        &&& self.lexer.wf()
        &&& self.lexer.src_seq() == self.src@
        &&& (forall|k: int|
            0 <= k < self.modifiers@.len() ==> (#[trigger] self.modifiers@[k]) matches Node::PublicKeyword)
    }

    pub fn new(src: &'a [u8], lexer: Lexer<'a>) -> (parser: Parser<'a>)
        requires
            lexer.wf(),
            lexer.src_seq() == src@,
        ensures
            parser.wf(),
            parser.src_seq() == src@,
            parser.remaining() == lexer.tokens(),
            parser.pending() == 0,
    {
        Parser { src, lexer, modifiers: Vec::new() }
    }

    fn parse_identifier(&mut self) -> (r: Result<Node<'a>, ParseError>)
        requires
            old(self).wf(),
        ensures
            final(self).wf(),
            final(self).src_seq() == old(self).src_seq(),
            final(self).pending() == old(self).pending(),
            ({
                let toks = old(self).remaining();
                if toks.len() == 0 {
                    &&& (r matches Err(e) && e@ == (ErrorView::TokenTypeMismatch {
                        expected: TokenType::Identifier,
                        found: None,
                        pos: 0,
                    }))
                    &&& final(self).remaining() == toks
                } else if toks[0].token_type == TokenType::Identifier {
                    &&& (r matches Ok(n) && n matches Node::Identifier(s) && s@ == lexeme(
                        old(self).src_seq(),
                        toks[0],
                    ))
                    &&& final(self).remaining() == toks.drop_first()
                } else {
                    &&& (r matches Err(e) && e@ == (ErrorView::TokenTypeMismatch {
                        expected: TokenType::Identifier,
                        found: Some(toks[0].token_type),
                        pos: toks[0].start,
                    }))
                    &&& final(self).remaining() == toks.drop_first()
                }
            }),
    {
        let tok_opt = self.lexer.next();
        match tok_opt {
            Some(token) => match token.token_type {
                TokenType::Identifier => Ok(
                    Node::Identifier(&self.src[token.start..token.end]),
                ),
                _ => Err(ParseError::TokenTypeMismatch {
                    expected: TokenType::Identifier,
                    found: Some(token.token_type),
                    pos: token.start,
                }),
            },
            None => Err(ParseError::TokenTypeMismatch {
                expected: TokenType::Identifier,
                found: None,
                pos: 0,
            }),
        }
    }

    fn expect(&mut self, expected_type: TokenType, expected_content: &[u8]) -> (r: Result<
        (),
        ParseError,
    >)
        requires
            old(self).wf(),
        ensures
            final(self).wf(),
            final(self).src_seq() == old(self).src_seq(),
            final(self).pending() == old(self).pending(),
            ({
                let toks = old(self).remaining();
                let src = old(self).src_seq();
                if toks.len() == 0 {
                    &&& (r matches Err(e) && e@ == ErrorView::UnexpectedEOF)
                    &&& final(self).remaining() == toks
                } else if toks[0].token_type == expected_type && lexeme(src, toks[0])
                    == expected_content@ {
                    &&& r matches Ok(_)
                    &&& final(self).remaining() == toks.drop_first()
                } else {
                    &&& (r matches Err(e) && e@ == (ErrorView::TokenMismatch {
                        expected_type: expected_type,
                        expected_content: expected_content@,
                        found_type: toks[0].token_type,
                        found_content: lexeme(src, toks[0]),
                        pos: toks[0].start,
                    }))
                    &&& final(self).remaining() == toks.drop_first()
                }
            }),
    {
        let tok_opt = self.lexer.next();
        match tok_opt {
            Some(token) => {
                let type_ok: bool = token.token_type == expected_type;
                let content_ok: bool = range_matches(
                    self.src,
                    token.start,
                    token.end,
                    expected_content,
                );
                if type_ok && content_ok {
                    Ok(())
                } else {
                    let found_content = copy_range(self.src, token.start, token.end);
                    let expected_vec = copy_range(expected_content, 0, expected_content.len());
                    proof {
                        assert(expected_content@.subrange(0, expected_content@.len() as int)
                            =~= expected_content@);
                    }
                    Err(ParseError::TokenMismatch {
                        expected_type,
                        expected_content: expected_vec,
                        found_type: token.token_type,
                        found_content,
                        pos: token.start,
                    })
                }
            },
            None => Err(ParseError::UnexpectedEOF),
        }
    }

    fn parse_function(&mut self) -> (r: Result<Node<'a>, ParseError>)
        requires
            old(self).wf(),
        ensures
            final(self).wf(),
            final(self).src_seq() == old(self).src_seq(),
            final(self).pending() == 0,
            final(self).remaining().len() <= old(self).remaining().len(),
            final(self).remaining() == spec_parse_function(
                old(self).src_seq(),
                old(self).remaining(),
                old(self).pending(),
            ).1,
            (match (r, spec_parse_function(
                old(self).src_seq(),
                old(self).remaining(),
                old(self).pending(),
            ).0) {
                (Ok(n), Ok(d)) => decl_matches(n, d),
                (Err(e), Err(ev)) => e@ == ev,
                _ => false,
            }),
    {
        let ghost src = self.src@;
        let ghost toks = self.lexer.tokens();
        let ghost pend = self.modifiers@.len();
        let mut modifiers: Vec<Node<'a>> = Vec::new();
        modifiers.append(&mut self.modifiers);
        let ident_node = match self.parse_identifier() {
            Ok(nd) => nd,
            Err(e) => {
                return Err(e);
            },
        };
        let open_paren: Vec<u8> = open_paren_bytes();
        match self.expect(TokenType::Punctuator, open_paren.as_slice()) {
            Ok(_) => {},
            Err(e) => {
                proof {
                    if toks.len() > 1 {
                        assert(toks.drop_first().drop_first() =~= toks.skip(2));
                    }
                }
                return Err(e);
            },
        };
        proof {
            assert(toks.drop_first().drop_first() =~= toks.skip(2));
        }
        let close_brace: Vec<u8> = close_brace_bytes();
        let ghost mark = self.lexer.tokens();
        loop
            invariant_except_break
                self.wf(),
                self.src@ == src,
                self.modifiers@.len() == 0,
                close_brace@ == seq![125u8],
                spec_skip_body(src, mark) == spec_skip_body(src, self.lexer.tokens()),
                self.lexer.tokens().len() <= mark.len(),
            ensures
                self.wf(),
                self.src@ == src,
                self.modifiers@.len() == 0,
                self.lexer.tokens() == spec_skip_body(src, mark),
                self.lexer.tokens().len() <= mark.len(),
            decreases self.lexer.tokens().len(),
        {
            let ghost cur = self.lexer.tokens();
            let tok_opt = self.lexer.next();
            match tok_opt {
                None => {
                    proof {
                        assert(self.lexer.tokens() =~= spec_skip_body(src, mark));
                    }
                    break;
                },
                Some(token) => {
                    if range_matches(self.src, token.start, token.end, close_brace.as_slice()) {
                        proof {
                            assert(lexeme(src, cur[0]) == seq![125u8]);
                            assert(spec_skip_body(src, cur) == cur.drop_first());
                        }
                        break;
                    } else {
                        proof {
                            assert(lexeme(src, cur[0]) != seq![125u8]);
                            assert(spec_skip_body(src, cur) == spec_skip_body(
                                src,
                                cur.drop_first(),
                            ));
                        }
                    }
                },
            }
        }
        let node = Node::FunctionDeclaration {
            modifiers,
            ident: Box::new(ident_node),
            params: Vec::new(),
            block: Box::new(Node::Block(Vec::new())),
        };
        Ok(node)
    }

    /// Parse the whole token stream: the sequence of top-level declarations,
    /// or the first parse error encountered (fail-fast, no recovery, no
    /// partial tree). The outcome is exactly what `spec_parse` gives for the
    /// tokens and pending modifiers at the time of the call.
    pub fn parse(&mut self) -> (r: Result<Vec<Node<'a>>, ParseError>)
        requires
            old(self).wf(),
        ensures
            final(self).wf(),
            final(self).src_seq() == old(self).src_seq(),
            (match (r, spec_parse(
                old(self).src_seq(),
                old(self).remaining(),
                old(self).pending(),
            )) {
                (Ok(nodes), Ok(ds)) => nodes@.len() == ds.len() && (forall|k: int|
                    0 <= k < ds.len() ==> decl_matches(#[trigger] nodes@[k], ds[k])),
                (Err(e), Err(ev)) => e@ == ev,
                _ => false,
            }),
            r matches Ok(_) ==> final(self).remaining().len() == 0,
    {
        let ghost src = self.src@;
        let ghost toks0 = self.lexer.tokens();
        let ghost p0 = self.modifiers@.len();
        let kw_pub: Vec<u8> = kw_pub_bytes();
        let kw_fn: Vec<u8> = kw_fn_bytes();
        let mut res: Vec<Node<'a>> = Vec::new();
        let ghost mut done: Seq<DeclView> = Seq::empty();
        loop
            invariant
                self.wf(),
                self.src@ == src,
                src == old(self).src_seq(),
                toks0 == old(self).remaining(),
                p0 == old(self).pending(),
                kw_pub@ == seq![112u8, 117u8, 98u8],
                kw_fn@ == seq![102u8, 110u8],
                res@.len() == done.len(),
                forall|k: int| 0 <= k < done.len() ==> decl_matches(#[trigger] res@[k], done[k]),
                spec_parse(src, toks0, p0) == prepend_decls(
                    done,
                    spec_parse(src, self.lexer.tokens(), self.modifiers@.len()),
                ),
            decreases self.lexer.tokens().len(),
        {
            let ghost cur = self.lexer.tokens();
            let ghost pend = self.modifiers@.len();
            let tok_opt = self.lexer.next();
            match tok_opt {
                None => {
                    proof {
                        assert(cur.len() == 0);
                        assert(spec_parse(src, cur, pend) == Ok::<Seq<DeclView>, ErrorView>(
                            seq![],
                        ));
                        assert(done + seq![] =~= done);
                    }
                    return Ok(res);
                },
                Some(token) => {
                    match token.token_type {
                        TokenType::Keyword => {
                            if range_matches(self.src, token.start, token.end, kw_pub.as_slice()) {
                                self.modifiers.push(Node::PublicKeyword);
                                proof {
                                    assert(spec_parse(src, cur, pend) == spec_parse(
                                        src,
                                        cur.drop_first(),
                                        pend + 1,
                                    ));
                                }
                            } else if range_matches(
                                self.src,
                                token.start,
                                token.end,
                                kw_fn.as_slice(),
                            ) {
                                let fr = self.parse_function();
                                match fr {
                                    Ok(node) => {
                                        res.push(node);
                                        proof {
                                            let done_old = done;
                                            let sf = spec_parse_function(
                                                src,
                                                cur.drop_first(),
                                                pend,
                                            );
                                            match sf.0 {
                                                Ok(d) => {
                                                    done = done_old + seq![d];
                                                    match spec_parse(src, sf.1, 0) {
                                                        Ok(ds) => {
                                                            assert(spec_parse(src, cur, pend)
                                                                == Ok::<
                                                                Seq<DeclView>,
                                                                ErrorView,
                                                            >(seq![d] + ds));
                                                            assert(done_old + (seq![d] + ds)
                                                                =~= done + ds);
                                                        },
                                                        Err(ev) => {
                                                            assert(spec_parse(src, cur, pend)
                                                                == Err::<
                                                                Seq<DeclView>,
                                                                ErrorView,
                                                            >(ev));
                                                        },
                                                    }
                                                },
                                                Err(_) => {
                                                    assert(false);
                                                },
                                            }
                                        }
                                    },
                                    Err(e) => {
                                        proof {
                                            let sf = spec_parse_function(
                                                src,
                                                cur.drop_first(),
                                                pend,
                                            );
                                            match sf.0 {
                                                Err(ev) => {
                                                    assert(spec_parse(src, cur, pend) == Err::<
                                                        Seq<DeclView>,
                                                        ErrorView,
                                                    >(ev));
                                                },
                                                Ok(_) => {
                                                    assert(false);
                                                },
                                            }
                                        }
                                        return Err(e);
                                    },
                                }
                            } else {
                                proof {
                                    assert(spec_parse(src, cur, pend) == Err::<
                                        Seq<DeclView>,
                                        ErrorView,
                                    >(ErrorView::UnknownKeyword { pos: token.start }));
                                }
                                return Err(ParseError::UnknownKeyword { pos: token.start });
                            }
                        },
                        _ => {
                            proof {
                                assert(spec_parse(src, cur, pend) == Err::<
                                    Seq<DeclView>,
                                    ErrorView,
                                >(ErrorView::UnexpectedToken {
                                    found: token.token_type,
                                    pos: token.start,
                                }));
                            }
                            return Err(ParseError::UnexpectedToken {
                                found: token.token_type,
                                pos: token.start,
                            });
                        },
                    }
                },
            }
        }
    }
}

/// The bytes of the keyword `pub`.
fn kw_pub_bytes() -> (v: Vec<u8>)
    ensures
        v@ == seq![112u8, 117u8, 98u8],
{
    let mut v: Vec<u8> = Vec::new();
    v.push(112);
    v.push(117);
    v.push(98);
    proof {
        assert(v@ =~= seq![112u8, 117u8, 98u8]);
    }
    v
}

/// The bytes of the keyword `fn`.
fn kw_fn_bytes() -> (v: Vec<u8>)
    ensures
        v@ == seq![102u8, 110u8],
{
    let mut v: Vec<u8> = Vec::new();
    v.push(102);
    v.push(110);
    proof {
        assert(v@ =~= seq![102u8, 110u8]);
    }
    v
}

/// The single byte of the punctuator `(`.
fn open_paren_bytes() -> (v: Vec<u8>)
    ensures
        v@ == seq![40u8],
{
    let mut v: Vec<u8> = Vec::new();
    v.push(40);
    proof {
        assert(v@ =~= seq![40u8]);
    }
    v
}

/// The single byte of the punctuator `}`.
fn close_brace_bytes() -> (v: Vec<u8>)
    ensures
        v@ == seq![125u8],
{
    let mut v: Vec<u8> = Vec::new();
    v.push(125);
    proof {
        assert(v@ =~= seq![125u8]);
    }
    v
}

/// A fresh vector holding the bytes of `src[start..end)`.
fn copy_range(src: &[u8], start: usize, end: usize) -> (v: Vec<u8>)
    requires
        start <= end && end <= src@.len(),
    ensures
        v@ == src@.subrange(start as int, end as int),
{
    let mut v: Vec<u8> = Vec::new();
    let mut i: usize = start;
    while i < end
        invariant
            start <= i <= end,
            end <= src@.len(),
            v@ =~= src@.subrange(start as int, i as int),
        decreases end - i,
    {
        v.push(src[i]);
        proof {
            assert(v@ =~= src@.subrange(start as int, i as int + 1));
        }
        i = i + 1;
    }
    proof {
        assert(v@ =~= src@.subrange(start as int, end as int));
    }
    v
}

} // verus!
