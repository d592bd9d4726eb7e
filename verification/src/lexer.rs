//! The tokenizer: a lazy, one-pass scanner that turns a source byte buffer
//! into a finite sequence of tokens, each a kind plus a byte-offset span into
//! the buffer. A token never owns text; its lexeme is the slice
//! `source[start..end)`.
//!
//! The spec-level model is `spec_tokens`, which gives the exact token
//! sequence the scanner produces from any position; `Lexer::next` is proved
//! to walk that sequence.

use vstd::prelude::*;

verus! {

/// The closed set of token kinds. `Comment` is declared but never produced:
/// no comment-lexing rule exists yet.
#[derive(Debug, PartialEq, Eq, Clone, Copy, Structural)]
pub enum TokenType {
    Keyword,
    Identifier,
    Literal,
    Operator,
    Punctuator,
    Comment,
}

/// An immutable token: a kind and the byte offsets `start <= end` of its
/// lexeme in the source buffer.
#[derive(Debug, PartialEq, Eq, Clone, Copy, Structural)]
pub struct Token {
    pub token_type: TokenType,
    pub start: usize,
    pub end: usize,
}

/// The lexeme of a token: the bytes of the source it spans.
pub open spec fn lexeme(src: Seq<u8>, t: Token) -> Seq<u8> {
    src.subrange(t.start as int, t.end as int)
}

/// ASCII whitespace, as the scanner skips it (the ASCII characters that Rust
/// counts as whitespace: tab through carriage return, and space).
pub open spec fn is_ws_byte(c: u8) -> bool {
    c == 9 || c == 10 || c == 11 || c == 12 || c == 13 || c == 32
}

/// A byte that can start an identifier-or-keyword token: an ASCII letter or
/// an underscore.
pub open spec fn is_ident_start_byte(c: u8) -> bool {
    (97 <= c && c <= 122) || (65 <= c && c <= 90) || c == 95
}

/// A byte that can continue an identifier-or-keyword token: an ASCII
/// alphanumeric or an underscore.
pub open spec fn is_ident_byte(c: u8) -> bool {
    is_ident_start_byte(c) || (48 <= c && c <= 57)
}

/// A byte of a numeric literal: an ASCII digit or `.` (no validation that at
/// most one `.` occurs; that is deferred, by design).
pub open spec fn is_number_byte(c: u8) -> bool {
    (48 <= c && c <= 57) || c == 46
}

/// A byte of the maximal-munch operator set: one of `+ - = < >`.
pub open spec fn is_operator_run_byte(c: u8) -> bool {
    c == 43 || c == 45 || c == 61 || c == 60 || c == 62
}

/// A byte that is an operator on its own: `*` or `!`. These trigger the
/// operator rule but are not in the maximal-munch set, so each is consumed
/// as a single-character token to guarantee forward progress.
pub open spec fn is_operator_single_byte(c: u8) -> bool {
    c == 42 || c == 33
}

/// A punctuator byte: one of `( ) { } , : ;`.
pub open spec fn is_punctuator_byte(c: u8) -> bool {
    c == 40 || c == 41 || c == 123 || c == 125 || c == 44 || c == 58 || c == 59
}

/// A byte on which the scanner's dispatch produces a token. On any other
/// non-whitespace byte the token sequence ends immediately.
pub open spec fn is_token_start_byte(c: u8) -> bool {
    ||| is_ident_start_byte(c)
    ||| is_number_byte(c)
    ||| c == 34
    ||| is_operator_run_byte(c)
    ||| is_operator_single_byte(c)
    ||| is_punctuator_byte(c)
}

/// The first position at or after `i` holding a non-whitespace byte (or the
/// end of the source).
pub open spec fn ws_end(src: Seq<u8>, i: int) -> int
    decreases src.len() - i when 0 <= i <= src.len()
{
    if i < src.len() && is_ws_byte(src[i]) {
        ws_end(src, i + 1)
    } else {
        i
    }
}

/// The end of the maximal run of identifier bytes starting at `i`.
pub open spec fn ident_end(src: Seq<u8>, i: int) -> int
    decreases src.len() - i when 0 <= i <= src.len()
{
    if i < src.len() && is_ident_byte(src[i]) {
        ident_end(src, i + 1)
    } else {
        i
    }
}

/// The end of the maximal run of digit-or-dot bytes starting at `i`.
pub open spec fn number_end(src: Seq<u8>, i: int) -> int
    decreases src.len() - i when 0 <= i <= src.len()
{
    if i < src.len() && is_number_byte(src[i]) {
        number_end(src, i + 1)
    } else {
        i
    }
}

/// The end of the maximal run of `+ - = < >` bytes starting at `i`.
pub open spec fn operator_end(src: Seq<u8>, i: int) -> int
    decreases src.len() - i when 0 <= i <= src.len()
{
    if i < src.len() && is_operator_run_byte(src[i]) {
        operator_end(src, i + 1)
    } else {
        i
    }
}

/// Where a string literal ends, scanning its contents from `i` (the position
/// just after the opening quote): a backslash skips the following byte, an
/// unescaped quote closes the literal (and is consumed), and exhausting the
/// input ends the literal at the end of the source.
pub open spec fn string_end(src: Seq<u8>, i: int) -> int
    decreases src.len() - i when 0 <= i <= src.len()
{
    if i >= src.len() {
        i
    } else if src[i] == 34 {
        i + 1
    } else if src[i] == 92 {
        if i + 2 <= src.len() {
            string_end(src, i + 2)
        } else {
            src.len() as int
        }
    } else {
        string_end(src, i + 1)
    }
}

/// The keyword lexemes: `pub`, `var`, `val`, `fn`, `return`, `true`, `false`.
pub open spec fn is_keyword_lexeme(s: Seq<u8>) -> bool {
    ||| s == seq![112u8, 117u8, 98u8]  // pub
    ||| s == seq![118u8, 97u8, 114u8]  // var
    ||| s == seq![118u8, 97u8, 108u8]  // val
    ||| s == seq![102u8, 110u8]  // fn
    ||| s == seq![114u8, 101u8, 116u8, 117u8, 114u8, 110u8]  // return
    ||| s == seq![116u8, 114u8, 117u8, 101u8]  // true
    ||| s == seq![102u8, 97u8, 108u8, 115u8, 101u8]  // false
}

/// Where the token that starts at `j` ends. Meaningful when `j` is in bounds
/// and `src[j]` is a token-start byte.
pub open spec fn token_end(src: Seq<u8>, j: int) -> int {
    let c = src[j];
    if is_ident_start_byte(c) {
        ident_end(src, j)
    } else if is_number_byte(c) {
        number_end(src, j)
    } else if c == 34 {
        string_end(src, j + 1)
    } else if is_operator_single_byte(c) {
        j + 1
    } else if is_operator_run_byte(c) {
        operator_end(src, j)
    } else {
        j + 1
    }
}

/// The kind of the token that starts at `j`: an identifier run is a keyword
/// exactly when its lexeme is one of the keyword lexemes.
pub open spec fn token_kind(src: Seq<u8>, j: int) -> TokenType {
    let c = src[j];
    if is_ident_start_byte(c) {
        if is_keyword_lexeme(src.subrange(j, ident_end(src, j))) {
            TokenType::Keyword
        } else {
            TokenType::Identifier
        }
    } else if is_number_byte(c) || c == 34 {
        TokenType::Literal
    } else if is_operator_single_byte(c) || is_operator_run_byte(c) {
        TokenType::Operator
    } else {
        TokenType::Punctuator
    }
}

/// The token that starts at `j`.
pub open spec fn token_at(src: Seq<u8>, j: int) -> Token {
    Token { token_type: token_kind(src, j), start: j as usize, end: token_end(src, j) as usize }
}

/// The token sequence the scanner produces from position `i`: skip
/// whitespace, then either dispatch on the current byte and continue after
/// the token, or end the sequence (at the end of the source, or on a byte no
/// rule recognizes — the remainder of the source is then discarded).
pub open spec fn spec_tokens(src: Seq<u8>, i: int) -> Seq<Token>
    decreases src.len() - i when 0 <= i <= src.len() via spec_tokens_decreases
{
    let j = ws_end(src, i);
    if j < src.len() && is_token_start_byte(src[j]) {
        seq![token_at(src, j)] + spec_tokens(src, token_end(src, j))
    } else {
        seq![]
    }
}

#[via_fn]
proof fn spec_tokens_decreases(src: Seq<u8>, i: int) {
    lemma_ws_end(src, i);
    let j = ws_end(src, i);
    if j < src.len() && is_token_start_byte(src[j]) {
        lemma_token_end(src, j);
    }
}

/// Bounds of the whitespace run: it stays within the source, and it stops on
/// a non-whitespace byte.
pub proof fn lemma_ws_end(src: Seq<u8>, i: int)
    requires
        0 <= i <= src.len(),
    ensures
        i <= ws_end(src, i) <= src.len(),
        ws_end(src, i) < src.len() ==> !is_ws_byte(src[ws_end(src, i)]),
    decreases src.len() - i,
{
    if i < src.len() && is_ws_byte(src[i]) {
        lemma_ws_end(src, i + 1);
    }
}

/// Bounds of the identifier run: it begins where it starts, stays within the
/// source, advances when the first byte qualifies, and stops on a
/// non-identifier byte.
pub proof fn lemma_ident_end(src: Seq<u8>, i: int)
    requires
        0 <= i <= src.len(),
    ensures
        i <= ident_end(src, i) <= src.len(),
        i < src.len() && is_ident_byte(src[i]) ==> ident_end(src, i) > i,
        ident_end(src, i) < src.len() ==> !is_ident_byte(src[ident_end(src, i)]),
    decreases src.len() - i,
{
    if i < src.len() && is_ident_byte(src[i]) {
        lemma_ident_end(src, i + 1);
    }
}

/// Bounds of the numeric run, as for `lemma_ident_end`.
pub proof fn lemma_number_end(src: Seq<u8>, i: int)
    requires
        0 <= i <= src.len(),
    ensures
        i <= number_end(src, i) <= src.len(),
        i < src.len() && is_number_byte(src[i]) ==> number_end(src, i) > i,
        number_end(src, i) < src.len() ==> !is_number_byte(src[number_end(src, i)]),
    decreases src.len() - i,
{
    if i < src.len() && is_number_byte(src[i]) {
        lemma_number_end(src, i + 1);
    }
}

/// Bounds of the operator run, as for `lemma_ident_end`.
pub proof fn lemma_operator_end(src: Seq<u8>, i: int)
    requires
        0 <= i <= src.len(),
    ensures
        i <= operator_end(src, i) <= src.len(),
        i < src.len() && is_operator_run_byte(src[i]) ==> operator_end(src, i) > i,
        operator_end(src, i) < src.len() ==> !is_operator_run_byte(src[operator_end(src, i)]),
    decreases src.len() - i,
{
    if i < src.len() && is_operator_run_byte(src[i]) {
        lemma_operator_end(src, i + 1);
    }
}

/// Bounds of the string scan: it never runs past the end of the source, and
/// it consumes at least one byte when one remains.
pub proof fn lemma_string_end(src: Seq<u8>, i: int)
    requires
        0 <= i <= src.len(),
    ensures
        i <= string_end(src, i) <= src.len(),
        i < src.len() ==> string_end(src, i) > i,
    decreases src.len() - i,
{
    if i < src.len() && src[i] != 34 {
        if src[i] == 92 {
            if i + 2 <= src.len() {
                lemma_string_end(src, i + 2);
            }
        } else {
            lemma_string_end(src, i + 1);
        }
    }
}

/// Every token consumes at least one byte and ends within the source: the
/// fact that rules out zero-width tokens.
pub proof fn lemma_token_end(src: Seq<u8>, j: int)
    requires
        0 <= j < src.len(),
        is_token_start_byte(src[j]),
    ensures
        j < token_end(src, j) <= src.len(),
{
    let c = src[j];
    if is_ident_start_byte(c) {
        lemma_ident_end(src, j);
    } else if is_number_byte(c) {
        lemma_number_end(src, j);
    } else if c == 34 {
        lemma_string_end(src, j + 1);
    } else if is_operator_single_byte(c) {
    } else if is_operator_run_byte(c) {
        lemma_operator_end(src, j);
    }
}

/// The spans of `toks` form a chain from position `i`: each token starts at
/// or after `i`, is non-empty, lies within the source, starts on a
/// token-start byte, is exactly the token the dispatch rules give at its
/// start, and the next token's chain begins where this one ends.
pub open spec fn tokens_chain(src: Seq<u8>, i: int, toks: Seq<Token>) -> bool
    decreases toks.len(),
{
    toks.len() == 0 || {
        &&& i <= toks[0].start
        &&& toks[0].start < toks[0].end <= src.len()
        &&& is_token_start_byte(src[toks[0].start as int])
        &&& toks[0] == token_at(src, toks[0].start as int)
        &&& tokens_chain(src, toks[0].end as int, toks.drop_first())
    }
}

/// The token sequence from any position is a chain: the inductive heart of
/// the span and classification laws.
pub proof fn lemma_tokens_chain(src: Seq<u8>, i: int)
    requires
        0 <= i <= src.len(),
        src.len() <= usize::MAX,
    ensures
        tokens_chain(src, i, spec_tokens(src, i)),
    decreases src.len() - i,
{
    lemma_ws_end(src, i);
    let j = ws_end(src, i);
    let toks = spec_tokens(src, i);
    if j < src.len() && is_token_start_byte(src[j]) {
        lemma_token_end(src, j);
        let e = token_end(src, j);
        lemma_tokens_chain(src, e);
        assert(toks[0] == token_at(src, j));
        assert(toks.drop_first() =~= spec_tokens(src, e));
    }
}

/// Each link of a chain, by index: the facts of `tokens_chain` for `toks[k]`,
/// and the non-overlap of consecutive spans.
pub proof fn lemma_chain_index(src: Seq<u8>, i: int, toks: Seq<Token>, k: int)
    requires
        tokens_chain(src, i, toks),
        0 <= k < toks.len(),
    ensures
        i <= toks[k].start,
        toks[k].start < toks[k].end <= src.len(),
        is_token_start_byte(src[toks[k].start as int]),
        toks[k] == token_at(src, toks[k].start as int),
        k < toks.len() - 1 ==> toks[k].end <= toks[k + 1].start,
    decreases k,
{
    if k == 0 {
        if toks.len() > 1 {
            assert(tokens_chain(src, toks[0].end as int, toks.drop_first()));
            assert(toks.drop_first()[0] == toks[1]);
        }
    } else {
        lemma_chain_index(src, toks[0].end as int, toks.drop_first(), k - 1);
        assert(toks.drop_first()[k - 1] == toks[k]);
        if k < toks.len() - 1 {
            assert(toks.drop_first()[k] == toks[k + 1]);
        }
    }
}

/// Span monotonicity: in the token sequence of any source, every span
/// satisfies `start <= end`, and consecutive spans are in non-decreasing,
/// non-overlapping order: `end_k <= start_{k+1}`.
#[verifier::rlimit(50)]
pub proof fn lemma_span_monotonicity(src: Seq<u8>)
    requires
        src.len() <= usize::MAX,
    ensures
        forall|k: int|
            0 <= k < spec_tokens(src, 0).len() ==> (#[trigger] spec_tokens(src, 0)[k]).start
                <= spec_tokens(src, 0)[k].end,
        forall|k: int|
            0 <= k < spec_tokens(src, 0).len() - 1 ==> (#[trigger] spec_tokens(src, 0)[k]).end
                <= spec_tokens(src, 0)[k + 1].start,
{
    lemma_tokens_chain(src, 0);
    let toks = spec_tokens(src, 0);
    assert forall|k: int| 0 <= k < toks.len() implies (#[trigger] toks[k]).start <= toks[k].end by {
        lemma_chain_index(src, 0, toks, k);
    }
    assert forall|k: int| 0 <= k < toks.len() - 1 implies (#[trigger] toks[k]).end <= toks[k
        + 1].start by {
        lemma_chain_index(src, 0, toks, k);
    }
}

/// Slice identity: every token's span lies within the source, and the lexeme
/// recovered from `source[start..end)` is non-empty — a zero-width token
/// never occurs, for any kind.
pub proof fn lemma_slice_identity(src: Seq<u8>)
    requires
        src.len() <= usize::MAX,
    ensures
        forall|k: int|
            0 <= k < spec_tokens(src, 0).len() ==> (#[trigger] spec_tokens(src, 0)[k]).end
                <= src.len(),
        forall|k: int|
            0 <= k < spec_tokens(src, 0).len() ==> lexeme(
                src,
                #[trigger] spec_tokens(src, 0)[k],
            ).len() > 0,
{
    lemma_tokens_chain(src, 0);
    let toks = spec_tokens(src, 0);
    assert forall|k: int| 0 <= k < toks.len() implies (#[trigger] toks[k]).end <= src.len()
        && lexeme(src, toks[k]).len() > 0 by {
        lemma_chain_index(src, 0, toks, k);
    }
}

/// Keyword closure: a token is classified `Keyword` exactly when it is an
/// identifier-or-keyword run (its first byte is a letter or underscore)
/// whose lexeme is one of `pub`, `var`, `val`, `fn`, `return`, `true`,
/// `false`; any other such run is classified `Identifier`.
pub proof fn lemma_keyword_closure(src: Seq<u8>)
    requires
        src.len() <= usize::MAX,
    ensures
        forall|k: int|
            0 <= k < spec_tokens(src, 0).len() ==> {
                let t = #[trigger] spec_tokens(src, 0)[k];
                &&& (t.token_type == TokenType::Keyword <==> is_ident_start_byte(
                    src[t.start as int],
                ) && is_keyword_lexeme(lexeme(src, t)))
                &&& (is_ident_start_byte(src[t.start as int]) && !is_keyword_lexeme(
                    lexeme(src, t),
                ) ==> t.token_type == TokenType::Identifier)
            },
{
    lemma_tokens_chain(src, 0);
    let toks = spec_tokens(src, 0);
    assert forall|k: int| 0 <= k < toks.len() implies {
        let t = #[trigger] toks[k];
        &&& (t.token_type == TokenType::Keyword <==> is_ident_start_byte(src[t.start as int])
            && is_keyword_lexeme(lexeme(src, t)))
        &&& (is_ident_start_byte(src[t.start as int]) && !is_keyword_lexeme(lexeme(src, t))
            ==> t.token_type == TokenType::Identifier)
    } by {
        lemma_chain_index(src, 0, toks, k);
        let t = toks[k];
        let j = t.start as int;
        lemma_token_end(src, j);
        assert(t.end as int == token_end(src, j));
        if is_ident_start_byte(src[j]) {
            assert(token_end(src, j) == ident_end(src, j));
            assert(lexeme(src, t) == src.subrange(j, ident_end(src, j)));
        }
    }
}

fn byte_is_ws(c: u8) -> (r: bool)
    ensures
        r == is_ws_byte(c),
{
    c == 9 || c == 10 || c == 11 || c == 12 || c == 13 || c == 32
}

fn byte_is_ident_start(c: u8) -> (r: bool)
    ensures
        r == is_ident_start_byte(c),
{
    (97 <= c && c <= 122) || (65 <= c && c <= 90) || c == 95
}

fn byte_is_ident(c: u8) -> (r: bool)
    ensures
        r == is_ident_byte(c),
{
    byte_is_ident_start(c) || (48 <= c && c <= 57)
}

fn byte_is_number(c: u8) -> (r: bool)
    ensures
        r == is_number_byte(c),
{
    (48 <= c && c <= 57) || c == 46
}

fn byte_is_operator_run(c: u8) -> (r: bool)
    ensures
        r == is_operator_run_byte(c),
{
    c == 43 || c == 45 || c == 61 || c == 60 || c == 62
}

fn byte_is_operator(c: u8) -> (r: bool)
    ensures
        r == (is_operator_run_byte(c) || is_operator_single_byte(c)),
{
    byte_is_operator_run(c) || c == 42 || c == 33
}

fn byte_is_punctuator(c: u8) -> (r: bool)
    ensures
        r == is_punctuator_byte(c),
{
    c == 40 || c == 41 || c == 123 || c == 125 || c == 44 || c == 58 || c == 59
}

/// Whether the bytes of `src[start..end)` are exactly `expected`.
pub(crate) fn range_matches(src: &[u8], start: usize, end: usize, expected: &[u8]) -> (r: bool)
    requires
        start <= end && end <= src@.len(),
    ensures
        r == (src@.subrange(start as int, end as int) == expected@),
{
    let n: usize = end - start;
    let ghost s = src@.subrange(start as int, end as int);
    if n != expected.len() {
        return false;
    }
    let mut i: usize = 0;
    while i < n
        invariant
            0 <= i <= n,
            n == end - start,
            start <= end <= src@.len(),
            n == expected@.len(),
            s == src@.subrange(start as int, end as int),
            forall|k: int| 0 <= k < i ==> s[k] == expected@[k],
        decreases n - i,
    {
        if src[start + i] != expected[i] {
            proof {
                assert(s[i as int] == src@[start as int + i]);
            }
            return false;
        }
        i = i + 1;
    }
    proof {
        assert(s =~= expected@);
    }
    true
}

/// Whether the bytes of `src[start..end)` are one of the keyword lexemes.
fn is_keyword_range(src: &[u8], start: usize, end: usize) -> (r: bool)
    requires
        start <= end && end <= src@.len(),
    ensures
        r == is_keyword_lexeme(src@.subrange(start as int, end as int)),
{
    let n: usize = end - start;
    let r: bool = if n == 2 {
        src[start] == 102 && src[start + 1] == 110
    } else if n == 3 {
        (src[start] == 112 && src[start + 1] == 117 && src[start + 2] == 98) || (src[start] == 118
            && src[start + 1] == 97 && (src[start + 2] == 114 || src[start + 2] == 108))
    } else if n == 4 {
        src[start] == 116 && src[start + 1] == 114 && src[start + 2] == 117 && src[start + 3]
            == 101
    } else if n == 5 {
        src[start] == 102 && src[start + 1] == 97 && src[start + 2] == 108 && src[start + 3] == 115
            && src[start + 4] == 101
    } else if n == 6 {
        src[start] == 114 && src[start + 1] == 101 && src[start + 2] == 116 && src[start + 3]
            == 117 && src[start + 4] == 114 && src[start + 5] == 110
    } else {
        false
    };
    proof {
        let s = src@.subrange(start as int, end as int);
        assert(s.len() == n);
        assert forall|k: int| 0 <= k < s.len() implies s[k] == src@[start as int + k] by {}
        if r {
            if n == 2 {
                assert(s =~= seq![102u8, 110u8]);
            }
            if n == 3 {
                if src@[start as int] == 112 {
                    assert(s =~= seq![112u8, 117u8, 98u8]);
                } else if src@[start as int + 2] == 114 {
                    assert(s =~= seq![118u8, 97u8, 114u8]);
                } else {
                    assert(s =~= seq![118u8, 97u8, 108u8]);
                }
            }
            if n == 4 {
                assert(s =~= seq![116u8, 114u8, 117u8, 101u8]);
            }
            if n == 5 {
                assert(s =~= seq![102u8, 97u8, 108u8, 115u8, 101u8]);
            }
            if n == 6 {
                assert(s =~= seq![114u8, 101u8, 116u8, 117u8, 114u8, 110u8]);
            }
        }
    }
    r
}

/// The scanner. Internal state is exactly the current scan index into the
/// source buffer; it is restartable only by constructing a new instance.
pub struct Lexer<'a> {
    src: &'a [u8],
    idx: usize,
}

impl<'a> Lexer<'a> {
    /// The source buffer the tokens index into.
    pub closed spec fn src_seq(&self) -> Seq<u8> {
        self.src@
    }

    /// The current scan position (a byte offset).
    pub closed spec fn pos(&self) -> int {
        self.idx as int
    }

    /// The scan position stays within the source buffer.
    pub open spec fn wf(&self) -> bool {
        0 <= self.pos() <= self.src_seq().len()
    }

    /// The tokens still to come from the current position.
    pub open spec fn tokens(&self) -> Seq<Token> {
        spec_tokens(self.src_seq(), self.pos())
    }

    pub fn new(src: &'a [u8]) -> (lexer: Lexer<'a>)
        ensures
            lexer.wf(),
            lexer.src_seq() == src@,
            lexer.tokens() == spec_tokens(src@, 0),
    {
        Lexer { src, idx: 0 }
    }

    fn skip_whitespace(&mut self)
        requires
            old(self).wf(),
        ensures
            final(self).wf(),
            final(self).src_seq() == old(self).src_seq(),
            final(self).pos() == ws_end(old(self).src_seq(), old(self).pos()),
    {
        let ghost src = self.src@;
        while self.idx < self.src.len() && byte_is_ws(self.src[self.idx])
            invariant
                self.src@ == src,
                self.idx <= src.len(),
                ws_end(src, old(self).idx as int) == ws_end(src, self.idx as int),
            decreases src.len() - self.idx,
        {
            self.idx = self.idx + 1;
        }
    }

    fn lex_identifier_or_keyword(&mut self) -> (t: Token)
        requires
            old(self).wf(),
            old(self).pos() < old(self).src_seq().len(),
            is_ident_start_byte(old(self).src_seq()[old(self).pos()]),
        ensures
            final(self).wf(),
            final(self).src_seq() == old(self).src_seq(),
            t == token_at(old(self).src_seq(), old(self).pos()),
            final(self).pos() == token_end(old(self).src_seq(), old(self).pos()),
    {
        let ghost src = self.src@;
        let start: usize = self.idx;
        while self.idx < self.src.len() && byte_is_ident(self.src[self.idx])
            invariant
                self.src@ == src,
                start <= self.idx <= src.len(),
                ident_end(src, start as int) == ident_end(src, self.idx as int),
            decreases src.len() - self.idx,
        {
            self.idx = self.idx + 1;
        }
        let kw: bool = is_keyword_range(self.src, start, self.idx);
        let token_type = if kw {
            TokenType::Keyword
        } else {
            TokenType::Identifier
        };
        Token { token_type, start, end: self.idx }
    }

    fn lex_number(&mut self) -> (t: Token)
        requires
            old(self).wf(),
            old(self).pos() < old(self).src_seq().len(),
            is_number_byte(old(self).src_seq()[old(self).pos()]),
        ensures
            final(self).wf(),
            final(self).src_seq() == old(self).src_seq(),
            t == token_at(old(self).src_seq(), old(self).pos()),
            final(self).pos() == token_end(old(self).src_seq(), old(self).pos()),
    {
        let ghost src = self.src@;
        let start: usize = self.idx;
        while self.idx < self.src.len() && byte_is_number(self.src[self.idx])
            invariant
                self.src@ == src,
                start <= self.idx <= src.len(),
                number_end(src, start as int) == number_end(src, self.idx as int),
            decreases src.len() - self.idx,
        {
            self.idx = self.idx + 1;
        }
        Token { token_type: TokenType::Literal, start, end: self.idx }
    }

    fn lex_string(&mut self) -> (t: Token)
        requires
            old(self).wf(),
            old(self).pos() < old(self).src_seq().len(),
            old(self).src_seq()[old(self).pos()] == 34,
        ensures
            final(self).wf(),
            final(self).src_seq() == old(self).src_seq(),
            t == token_at(old(self).src_seq(), old(self).pos()),
            final(self).pos() == token_end(old(self).src_seq(), old(self).pos()),
    {
        let ghost src = self.src@;
        let n: usize = self.src.len();
        let start: usize = self.idx;
        self.idx = self.idx + 1;
        let ghost s1 = self.idx as int;
        loop
            invariant_except_break
                self.src@ == src,
                n == src.len(),
                s1 <= self.idx <= src.len(),
                string_end(src, s1) == string_end(src, self.idx as int),
            ensures
                self.src@ == src,
                s1 <= self.idx <= src.len(),
                self.idx == string_end(src, s1),
            decreases src.len() - self.idx,
        {
            if self.idx >= n {
                break;
            }
            let c: u8 = self.src[self.idx];
            if c == 34 {
                self.idx = self.idx + 1;
                break;
            } else if c == 92 {
                if n - self.idx >= 2 {
                    self.idx = self.idx + 2;
                } else {
                    self.idx = n;
                }
            } else {
                self.idx = self.idx + 1;
            }
        }
        Token { token_type: TokenType::Literal, start, end: self.idx }
    }

    fn lex_operator(&mut self) -> (t: Token)
        requires
            old(self).wf(),
            old(self).pos() < old(self).src_seq().len(),
            is_operator_run_byte(old(self).src_seq()[old(self).pos()]) || is_operator_single_byte(
                old(self).src_seq()[old(self).pos()],
            ),
        ensures
            final(self).wf(),
            final(self).src_seq() == old(self).src_seq(),
            t == token_at(old(self).src_seq(), old(self).pos()),
            final(self).pos() == token_end(old(self).src_seq(), old(self).pos()),
    {
        let ghost src = self.src@;
        let start: usize = self.idx;
        let c: u8 = self.src[self.idx];
        if c == 42 || c == 33 {
            self.idx = self.idx + 1;
        } else {
            while self.idx < self.src.len() && byte_is_operator_run(self.src[self.idx])
                invariant
                    self.src@ == src,
                    start <= self.idx <= src.len(),
                    operator_end(src, start as int) == operator_end(src, self.idx as int),
                decreases src.len() - self.idx,
            {
                self.idx = self.idx + 1;
            }
        }
        Token { token_type: TokenType::Operator, start, end: self.idx }
    }

    /// Produce the next token, or `None` at the end of the sequence (the end
    /// of the source, or a byte no rule recognizes). Walks `tokens()`: when a
    /// token remains it is returned and the scanner moves past it.
    pub fn next(&mut self) -> (r: Option<Token>)
        requires
            old(self).wf(),
        ensures
            final(self).wf(),
            final(self).src_seq() == old(self).src_seq(),
            old(self).tokens().len() > 0 ==> {
                &&& r == Some(old(self).tokens()[0])
                &&& final(self).tokens() == old(self).tokens().drop_first()
                &&& old(self).tokens()[0].start < old(self).tokens()[0].end
                &&& old(self).tokens()[0].end <= final(self).src_seq().len()
            },
            old(self).tokens().len() == 0 ==> r is None && final(self).tokens().len() == 0,
    {
        let ghost src = self.src@;
        let ghost i0 = self.idx as int;
        self.skip_whitespace();
        proof {
            lemma_ws_end(src, i0);
        }
        let ghost j = self.idx as int;
        if self.idx == self.src.len() {
            return None;
        }
        let c: u8 = self.src[self.idx];
        let t: Token;
        if byte_is_ident_start(c) {
            t = self.lex_identifier_or_keyword();
        } else if byte_is_number(c) {
            t = self.lex_number();
        } else if c == 34 {
            t = self.lex_string();
        } else if byte_is_operator(c) {
            t = self.lex_operator();
        } else if byte_is_punctuator(c) {
            let start: usize = self.idx;
            self.idx = self.idx + 1;
            t = Token { token_type: TokenType::Punctuator, start, end: self.idx };
        } else {
            return None;
        }
        proof {
            lemma_token_end(src, j);
            assert(spec_tokens(src, i0).drop_first() =~= spec_tokens(src, token_end(src, j)));
        }
        Some(t)
    }
}

} // verus!
