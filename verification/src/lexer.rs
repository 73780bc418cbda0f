use vstd::prelude::*;

use crate::span::Span;

verus! {

/// The closed set of lexical categories: keywords, punctuation, operators,
/// literal classes, and the `TOK_ERROR` / `TOK_EOF` sentinels.
#[allow(non_camel_case_types)]
#[derive(Clone, Copy, Debug, PartialEq, Eq, Structural)]
pub enum TokenKind {
    KW_FN,
    KW_IF,
    KW_ELSE,
    KW_LET,
    TOK_SEMI,
    TOK_LPAREN,
    TOK_RPAREN,
    TOK_LBRACE,
    TOK_RBRACE,
    COMMA,
    OP_MINUS,
    OP_PLUS,
    OP_STAR,
    OP_SLASH,
    OP_EQ,
    OP_OR,
    OP_AND,
    OP_EQEQ,
    OP_NEQ,
    OP_LT,
    OP_LE,
    OP_GT,
    OP_GE,
    OP_BANG,
    LIT_INT,
    LIT_STR,
    LIT_IDENT,
    TOK_ERROR,
    TOK_EOF,
}

#[derive(Clone, Copy, Debug, PartialEq, Eq, Structural)]
pub struct Token {
    pub kind: TokenKind,
    pub span: Span,
}

/// The whitespace bytes the tokenizer skips: space, tab, newline, return.
pub open spec fn is_ws(b: u8) -> bool {
    b == 32 || b == 9 || b == 10 || b == 13
}

pub open spec fn is_digit(b: u8) -> bool {
    48 <= b && b <= 57
}

pub open spec fn is_ident_start(b: u8) -> bool {
    (97 <= b && b <= 122) || (65 <= b && b <= 90) || b == 95
}

pub open spec fn is_ident_cont(b: u8) -> bool {
    is_ident_start(b) || is_digit(b)
}

pub open spec fn kw_fn(s: Seq<u8>) -> bool {
    s.len() == 2 && s[0] == 102 && s[1] == 110
}

pub open spec fn kw_if(s: Seq<u8>) -> bool {
    s.len() == 2 && s[0] == 105 && s[1] == 102
}

pub open spec fn kw_else(s: Seq<u8>) -> bool {
    s.len() == 4 && s[0] == 101 && s[1] == 108 && s[2] == 115 && s[3] == 101
}

pub open spec fn kw_let(s: Seq<u8>) -> bool {
    s.len() == 3 && s[0] == 108 && s[1] == 101 && s[2] == 116
}

/// The identifier-shaped lexemes that are their own token kinds.
pub open spec fn is_keyword(s: Seq<u8>) -> bool {
    kw_fn(s) || kw_if(s) || kw_else(s) || kw_let(s)
}

/// All bytes of `src` in the half-open range `lo..hi` are whitespace.
pub open spec fn ws_range(src: Seq<u8>, lo: int, hi: int) -> bool {
    forall|k: int| lo <= k < hi ==> is_ws(src[k])
}

/// The bytes under the token's span belong to the token's lexical class:
/// the coarse well-formedness the parser runs on. `TOK_ERROR` marks a span
/// the tokenizer could not classify, and this predicate admits any bytes
/// there; exactly which spans become error tokens is pinned by
/// `spec_scan` and `spec_lex` below.
pub open spec fn lexeme_matches(src: Seq<u8>, t: Token) -> bool {
    let s = src.subrange(t.span.start as int, t.span.end as int);
    match t.kind {
        TokenKind::KW_FN => kw_fn(s),
        TokenKind::KW_IF => kw_if(s),
        TokenKind::KW_ELSE => kw_else(s),
        TokenKind::KW_LET => kw_let(s),
        TokenKind::TOK_SEMI => s.len() == 1 && s[0] == 59,
        TokenKind::TOK_LPAREN => s.len() == 1 && s[0] == 40,
        TokenKind::TOK_RPAREN => s.len() == 1 && s[0] == 41,
        TokenKind::TOK_LBRACE => s.len() == 1 && s[0] == 123,
        TokenKind::TOK_RBRACE => s.len() == 1 && s[0] == 125,
        TokenKind::COMMA => s.len() == 1 && s[0] == 44,
        TokenKind::OP_MINUS => s.len() == 1 && s[0] == 45,
        TokenKind::OP_PLUS => s.len() == 1 && s[0] == 43,
        TokenKind::OP_STAR => s.len() == 1 && s[0] == 42,
        TokenKind::OP_SLASH => s.len() == 1 && s[0] == 47,
        TokenKind::OP_EQ => s.len() == 1 && s[0] == 61,
        TokenKind::OP_OR => s.len() == 2 && s[0] == 124 && s[1] == 124,
        TokenKind::OP_AND => s.len() == 2 && s[0] == 38 && s[1] == 38,
        TokenKind::OP_EQEQ => s.len() == 2 && s[0] == 61 && s[1] == 61,
        TokenKind::OP_NEQ => s.len() == 2 && s[0] == 33 && s[1] == 61,
        TokenKind::OP_LT => s.len() == 1 && s[0] == 60,
        TokenKind::OP_LE => s.len() == 2 && s[0] == 60 && s[1] == 61,
        TokenKind::OP_GT => s.len() == 1 && s[0] == 62,
        TokenKind::OP_GE => s.len() == 2 && s[0] == 62 && s[1] == 61,
        TokenKind::OP_BANG => s.len() == 1 && s[0] == 33,
        TokenKind::LIT_INT => s.len() > 0 && (forall|k: int| 0 <= k < s.len() ==> is_digit(s[k])),
        TokenKind::LIT_STR => s.len() >= 2 && s[0] == 34 && s[s.len() - 1] == 34,
        TokenKind::LIT_IDENT => s.len() > 0 && is_ident_start(s[0]) && (forall|k: int|
            0 <= k < s.len() ==> is_ident_cont(s[k])) && !is_keyword(s),
        TokenKind::TOK_ERROR => true,
        TokenKind::TOK_EOF => t.span.start == t.span.end,
    }
}

/// A token stream the parser can run on: non-empty, terminated by a single
/// end-of-input token, every span inside `src`, every lexeme classified.
pub open spec fn wf_tokens(src: Seq<u8>, toks: Seq<Token>) -> bool {
    &&& toks.len() >= 1
    &&& toks[toks.len() - 1].kind == TokenKind::TOK_EOF
    &&& forall|i: int| 0 <= i < toks.len() - 1 ==> toks[i].kind != TokenKind::TOK_EOF
    &&& forall|i: int|
        0 <= i < toks.len() ==> toks[i].span.start <= toks[i].span.end
            && toks[i].span.end <= src.len()
    &&& forall|i: int| 0 <= i < toks.len() ==> lexeme_matches(src, toks[i])
}

/// One past the end of the run of decimal digits beginning at `i`.
pub open spec fn digits_end(src: Seq<u8>, i: int) -> int
    decreases (if 0 <= i <= src.len() { src.len() - i } else { 0 }),
{
    if 0 <= i < src.len() && is_digit(src[i]) {
        digits_end(src, i + 1)
    } else {
        i
    }
}

/// One past the end of the run of identifier bytes beginning at `i`.
pub open spec fn ident_end(src: Seq<u8>, i: int) -> int
    decreases (if 0 <= i <= src.len() { src.len() - i } else { 0 }),
{
    if 0 <= i < src.len() && is_ident_cont(src[i]) {
        ident_end(src, i + 1)
    } else {
        i
    }
}

/// Where the string literal whose opening quote stands just before `i`
/// ends: one past the closing quote, or nothing when the input ends
/// first. A backslash escapes the byte after it.
pub open spec fn str_scan(src: Seq<u8>, i: int) -> Option<int>
    decreases (if 0 <= i <= src.len() { src.len() - i } else { 0 }),
{
    if !(0 <= i < src.len()) {
        None
    } else if src[i] == 34 {
        Some(i + 1)
    } else if src[i] == 92 {
        if i + 1 < src.len() {
            str_scan(src, i + 2)
        } else {
            None
        }
    } else {
        str_scan(src, i + 1)
    }
}

/// The kind an identifier-shaped lexeme denotes: its keyword, or a plain
/// identifier.
pub open spec fn ident_kind_of(s: Seq<u8>) -> TokenKind {
    if kw_fn(s) {
        TokenKind::KW_FN
    } else if kw_if(s) {
        TokenKind::KW_IF
    } else if kw_else(s) {
        TokenKind::KW_ELSE
    } else if kw_let(s) {
        TokenKind::KW_LET
    } else {
        TokenKind::LIT_IDENT
    }
}

/// The token starting at the non-whitespace byte at `pos`: its kind and
/// one past its end. An unterminated string literal is one error token
/// reaching the end of the input; any other un-lexable byte is a
/// one-byte error token.
pub open spec fn spec_scan(src: Seq<u8>, pos: int) -> (TokenKind, int)
    recommends
        0 <= pos < src.len(),
{
    let b = src[pos];
    if is_digit(b) {
        (TokenKind::LIT_INT, digits_end(src, pos + 1))
    } else if is_ident_start(b) {
        let e = ident_end(src, pos + 1);
        (ident_kind_of(src.subrange(pos, e)), e)
    } else if b == 34 {
        match str_scan(src, pos + 1) {
            Some(e) => (TokenKind::LIT_STR, e),
            None => (TokenKind::TOK_ERROR, src.len() as int),
        }
    } else if b == 59 {
        (TokenKind::TOK_SEMI, pos + 1)
    } else if b == 40 {
        (TokenKind::TOK_LPAREN, pos + 1)
    } else if b == 41 {
        (TokenKind::TOK_RPAREN, pos + 1)
    } else if b == 123 {
        (TokenKind::TOK_LBRACE, pos + 1)
    } else if b == 125 {
        (TokenKind::TOK_RBRACE, pos + 1)
    } else if b == 44 {
        (TokenKind::COMMA, pos + 1)
    } else if b == 45 {
        (TokenKind::OP_MINUS, pos + 1)
    } else if b == 43 {
        (TokenKind::OP_PLUS, pos + 1)
    } else if b == 42 {
        (TokenKind::OP_STAR, pos + 1)
    } else if b == 47 {
        (TokenKind::OP_SLASH, pos + 1)
    } else if b == 61 {
        if pos + 1 < src.len() && src[pos + 1] == 61 {
            (TokenKind::OP_EQEQ, pos + 2)
        } else {
            (TokenKind::OP_EQ, pos + 1)
        }
    } else if b == 33 {
        if pos + 1 < src.len() && src[pos + 1] == 61 {
            (TokenKind::OP_NEQ, pos + 2)
        } else {
            (TokenKind::OP_BANG, pos + 1)
        }
    } else if b == 60 {
        if pos + 1 < src.len() && src[pos + 1] == 61 {
            (TokenKind::OP_LE, pos + 2)
        } else {
            (TokenKind::OP_LT, pos + 1)
        }
    } else if b == 62 {
        if pos + 1 < src.len() && src[pos + 1] == 61 {
            (TokenKind::OP_GE, pos + 2)
        } else {
            (TokenKind::OP_GT, pos + 1)
        }
    } else if b == 124 {
        if pos + 1 < src.len() && src[pos + 1] == 124 {
            (TokenKind::OP_OR, pos + 2)
        } else {
            (TokenKind::TOK_ERROR, pos + 1)
        }
    } else if b == 38 {
        if pos + 1 < src.len() && src[pos + 1] == 38 {
            (TokenKind::OP_AND, pos + 2)
        } else {
            (TokenKind::TOK_ERROR, pos + 1)
        }
    } else {
        (TokenKind::TOK_ERROR, pos + 1)
    }
}

/// The token sequence from `pos` on: whitespace is skipped, each
/// remaining token is one `spec_scan`, and a final end-of-input token
/// with the empty span closes the sequence.
pub open spec fn spec_lex_from(src: Seq<u8>, pos: int) -> Seq<Token>
    decreases (if 0 <= pos <= src.len() { src.len() - pos } else { 0 }),
{
    if !(0 <= pos < src.len()) {
        seq![Token { kind: TokenKind::TOK_EOF, span: Span { start: 0, end: 0 } }]
    } else if is_ws(src[pos]) {
        spec_lex_from(src, pos + 1)
    } else {
        let (kind, end) = spec_scan(src, pos);
        let e2 = if end < pos + 1 {
            pos + 1
        } else {
            end
        };
        seq![Token { kind, span: Span { start: pos as u32, end: e2 as u32 } }] + spec_lex_from(
            src,
            e2,
        )
    }
}

/// What tokenizing a whole source means.
pub open spec fn spec_lex(src: Seq<u8>) -> Seq<Token> {
    spec_lex_from(src, 0)
}

/// `digits_end` is the one offset bounding a maximal digit run.
pub proof fn lemma_digits_end_is(src: Seq<u8>, i: int, e: int)
    requires
        0 <= i <= e <= src.len(),
        forall|k: int| i <= k < e ==> is_digit(src[k]),
        e == src.len() || !is_digit(src[e]),
    ensures
        digits_end(src, i) == e,
    decreases e - i,
{
    if i < e {
        lemma_digits_end_is(src, i + 1, e);
    }
}

/// `ident_end` is the one offset bounding a maximal identifier run.
pub proof fn lemma_ident_end_is(src: Seq<u8>, i: int, e: int)
    requires
        0 <= i <= e <= src.len(),
        forall|k: int| i <= k < e ==> is_ident_cont(src[k]),
        e == src.len() || !is_ident_cont(src[e]),
    ensures
        ident_end(src, i) == e,
    decreases e - i,
{
    if i < e {
        lemma_ident_end_is(src, i + 1, e);
    }
}

/// Consumes a run of decimal digits beginning at `start`.
fn scan_digits(src: &[u8], start: usize) -> (end: usize)
    requires
        src@.len() <= u32::MAX,
        start < src@.len(),
        is_digit(src@[start as int]),
    ensures
        start < end <= src@.len(),
        forall|k: int| start <= k < end ==> is_digit(src@[k]),
        end < src@.len() ==> !is_digit(src@[end as int]),
{
    let mut i = start + 1;
    while i < src.len()
        invariant
            src@.len() <= u32::MAX,
            start < i <= src@.len(),
            forall|k: int| start <= k < i ==> is_digit(src@[k]),
        decreases src@.len() - i,
    {
        let b = src[i];
        if !(48 <= b && b <= 57) {
            return i;
        }
        i = i + 1;
    }
    i
}

/// Consumes a run of identifier bytes beginning at `start`.
fn scan_ident(src: &[u8], start: usize) -> (end: usize)
    requires
        src@.len() <= u32::MAX,
        start < src@.len(),
        is_ident_start(src@[start as int]),
    ensures
        start < end <= src@.len(),
        forall|k: int| start <= k < end ==> is_ident_cont(src@[k]),
        end < src@.len() ==> !is_ident_cont(src@[end as int]),
{
    let mut i = start + 1;
    while i < src.len()
        invariant
            src@.len() <= u32::MAX,
            start < i <= src@.len(),
            forall|k: int| start <= k < i ==> is_ident_cont(src@[k]),
        decreases src@.len() - i,
    {
        let b = src[i];
        let cont = (97 <= b && b <= 122) || (65 <= b && b <= 90) || b == 95 || (48 <= b
            && b <= 57);
        if !cont {
            return i;
        }
        i = i + 1;
    }
    i
}

/// Consumes a string literal beginning at the opening quote at `start`:
/// a closing unescaped quote ends it; a backslash escapes the next byte.
/// Returns the offset one past the closing quote, or nothing when the
/// input ends before a closing quote.
fn scan_string(src: &[u8], start: usize) -> (r: Option<usize>)
    requires
        src@.len() <= u32::MAX,
        start < src@.len(),
        src@[start as int] == 34,
    ensures
        match r {
            Some(end) => start + 2 <= end && end <= src@.len() && src@[end - 1] == 34 && str_scan(
                src@,
                start + 1,
            ) == Some(end as int),
            None => str_scan(src@, start + 1) is None,
        },
{
    let mut i = start + 1;
    while i < src.len()
        invariant
            src@.len() <= u32::MAX,
            start < i,
            i <= src@.len() + 1,
            src@[start as int] == 34,
            str_scan(src@, start + 1) == str_scan(src@, i as int),
        decreases src@.len() + 1 - i,
    {
        let b = src[i];
        if b == 34 {
            return Some(i + 1);
        }
        if b == 92 {
            // skip the backslash and the byte it escapes
            i = i + 1;
            if i < src.len() {
                i = i + 1;
            } else {
                return None;
            }
        } else {
            i = i + 1;
        }
    }
    None
}

/// Classifies an identifier-shaped run: one of the keyword kinds, or
/// `LIT_IDENT` when the bytes spell no keyword.
fn ident_kind(src: &[u8], start: usize, end: usize) -> (k: TokenKind)
    requires
        start < end <= src@.len(),
        src@.len() <= u32::MAX,
        is_ident_start(src@[start as int]),
        forall|k: int| start <= k < end ==> is_ident_cont(src@[k]),
    ensures
        k != TokenKind::TOK_EOF,
        k == ident_kind_of(src@.subrange(start as int, end as int)),
        lexeme_matches(
            src@,
            Token { kind: k, span: Span { start: start as u32, end: end as u32 } },
        ),
{
    let n = end - start;
    let k = if n == 2 && src[start] == 102 && src[start + 1] == 110 {
        TokenKind::KW_FN
    } else if n == 2 && src[start] == 105 && src[start + 1] == 102 {
        TokenKind::KW_IF
    } else if n == 4 && src[start] == 101 && src[start + 1] == 108 && src[start + 2] == 115
        && src[start + 3] == 101 {
        TokenKind::KW_ELSE
    } else if n == 3 && src[start] == 108 && src[start + 1] == 101 && src[start + 2] == 116 {
        TokenKind::KW_LET
    } else {
        TokenKind::LIT_IDENT
    };
    proof {
        let s = src@.subrange(start as int, end as int);
        assert(s.len() == end - start);
        assert(forall|j: int| 0 <= j < s.len() ==> s[j] == src@[start + j]);
    }
    k
}

/// Scans the one token starting at the non-whitespace byte at `pos`,
/// exactly as `spec_scan` says.
fn scan_token(src: &[u8], pos: usize) -> (r: (TokenKind, usize))
    requires
        src@.len() <= u32::MAX,
        pos < src@.len(),
        !is_ws(src@[pos as int]),
    ensures
        (r.0, r.1 as int) == spec_scan(src@, pos as int),
        pos < r.1 <= src@.len(),
        r.0 != TokenKind::TOK_EOF,
        lexeme_matches(
            src@,
            Token { kind: r.0, span: Span { start: pos as u32, end: r.1 as u32 } },
        ),
{
    let b = src[pos];
    if 48 <= b && b <= 57 {
        let end = scan_digits(src, pos);
        proof {
            lemma_digits_end_is(src@, pos + 1, end as int);
        }
        (TokenKind::LIT_INT, end)
    } else if (97 <= b && b <= 122) || (65 <= b && b <= 90) || b == 95 {
        let end = scan_ident(src, pos);
        proof {
            lemma_ident_end_is(src@, pos + 1, end as int);
        }
        (ident_kind(src, pos, end), end)
    } else if b == 34 {
        match scan_string(src, pos) {
            Some(end) => (TokenKind::LIT_STR, end),
            None => (TokenKind::TOK_ERROR, src.len()),
        }
    } else if b == 59 {
        (TokenKind::TOK_SEMI, pos + 1)
    } else if b == 40 {
        (TokenKind::TOK_LPAREN, pos + 1)
    } else if b == 41 {
        (TokenKind::TOK_RPAREN, pos + 1)
    } else if b == 123 {
        (TokenKind::TOK_LBRACE, pos + 1)
    } else if b == 125 {
        (TokenKind::TOK_RBRACE, pos + 1)
    } else if b == 44 {
        (TokenKind::COMMA, pos + 1)
    } else if b == 45 {
        (TokenKind::OP_MINUS, pos + 1)
    } else if b == 43 {
        (TokenKind::OP_PLUS, pos + 1)
    } else if b == 42 {
        (TokenKind::OP_STAR, pos + 1)
    } else if b == 47 {
        (TokenKind::OP_SLASH, pos + 1)
    } else if b == 61 {
        if pos + 1 < src.len() && src[pos + 1] == 61 {
            (TokenKind::OP_EQEQ, pos + 2)
        } else {
            (TokenKind::OP_EQ, pos + 1)
        }
    } else if b == 33 {
        if pos + 1 < src.len() && src[pos + 1] == 61 {
            (TokenKind::OP_NEQ, pos + 2)
        } else {
            (TokenKind::OP_BANG, pos + 1)
        }
    } else if b == 60 {
        if pos + 1 < src.len() && src[pos + 1] == 61 {
            (TokenKind::OP_LE, pos + 2)
        } else {
            (TokenKind::OP_LT, pos + 1)
        }
    } else if b == 62 {
        if pos + 1 < src.len() && src[pos + 1] == 61 {
            (TokenKind::OP_GE, pos + 2)
        } else {
            (TokenKind::OP_GT, pos + 1)
        }
    } else if b == 124 {
        if pos + 1 < src.len() && src[pos + 1] == 124 {
            (TokenKind::OP_OR, pos + 2)
        } else {
            (TokenKind::TOK_ERROR, pos + 1)
        }
    } else if b == 38 {
        if pos + 1 < src.len() && src[pos + 1] == 38 {
            (TokenKind::OP_AND, pos + 2)
        } else {
            (TokenKind::TOK_ERROR, pos + 1)
        }
    } else {
        (TokenKind::TOK_ERROR, pos + 1)
    }
}

/// Turns source text into its token sequence: tokens appear in source
/// order with non-overlapping spans, only whitespace lies between them,
/// every lexeme is classified by its kind (un-lexable spans come out as
/// `TOK_ERROR`), and a final `TOK_EOF` token with an empty span closes
/// the sequence.
#[verifier::rlimit(50)]
pub fn lex(src: &[u8]) -> (toks: Vec<Token>)
    requires
        src@.len() <= u32::MAX,
    ensures
        toks@ == spec_lex(src@),
        wf_tokens(src@, toks@),
        toks@[toks@.len() - 1].span.start == 0 && toks@[toks@.len() - 1].span.end == 0,
        forall|i: int|
            0 <= i < toks@.len() - 2 ==> toks@[i].span.end <= toks@[i + 1].span.start && ws_range(
                src@,
                toks@[i].span.end as int,
                toks@[i + 1].span.start as int,
            ),
        toks@.len() >= 2 ==> ws_range(src@, 0, toks@[0].span.start as int) && ws_range(
            src@,
            toks@[toks@.len() - 2].span.end as int,
            src@.len() as int,
        ),
        toks@.len() == 1 ==> ws_range(src@, 0, src@.len() as int),
{
    let mut toks: Vec<Token> = Vec::new();
    let mut pos: usize = 0;
    proof {
        assert(spec_lex(src@) =~= toks@ + spec_lex_from(src@, 0));
    }
    while pos < src.len()
        invariant
            src@.len() <= u32::MAX,
            pos <= src@.len(),
            spec_lex(src@) == toks@ + spec_lex_from(src@, pos as int),
            forall|i: int|
                0 <= i < toks@.len() ==> toks@[i].kind != TokenKind::TOK_EOF && lexeme_matches(
                    src@,
                    toks@[i],
                ) && toks@[i].span.start < toks@[i].span.end && toks@[i].span.end <= pos,
            forall|i: int|
                0 <= i < toks@.len() - 1 ==> toks@[i].span.end <= toks@[i + 1].span.start
                    && ws_range(src@, toks@[i].span.end as int, toks@[i + 1].span.start as int),
            toks@.len() > 0 ==> ws_range(src@, 0, toks@[0].span.start as int) && ws_range(
                src@,
                toks@[toks@.len() - 1].span.end as int,
                pos as int,
            ),
            toks@.len() == 0 ==> ws_range(src@, 0, pos as int),
        decreases src@.len() - pos,
    {
        let b = src[pos];
        if b == 32 || b == 9 || b == 10 || b == 13 {
            pos = pos + 1;
        } else {
            let (kind, end) = scan_token(src, pos);
            let t = Token { kind, span: Span { start: pos as u32, end: end as u32 } };
            proof {
                let s = src@.subrange(pos as int, end as int);
                assert(forall|j: int| 0 <= j < s.len() ==> s[j] == src@[pos + j]);
                assert(spec_scan(src@, pos as int) == (kind, end as int));
                assert(spec_lex_from(src@, pos as int) =~= seq![t] + spec_lex_from(
                    src@,
                    end as int,
                ));
                assert(toks@ + (seq![t] + spec_lex_from(src@, end as int)) =~= toks@.push(t)
                    + spec_lex_from(src@, end as int));
            }
            toks.push(t);
            pos = end;
        }
    }
    let eof = Token { kind: TokenKind::TOK_EOF, span: Span::empty() };
    proof {
        assert(spec_lex_from(src@, pos as int) =~= seq![eof]);
        assert(toks@ + seq![eof] =~= toks@.push(eof));
    }
    toks.push(eof);
    toks
}

} // verus!
