use tinyscript::lexer::{lex, TokenKind};

fn kinds(src: &str) -> Vec<TokenKind> {
    lex(src.as_bytes()).into_iter().map(|t| t.kind).collect()
}

#[test]
fn lex_empty_input_gives_only_eof() {
    let toks = lex(b"");
    assert_eq!(toks.len(), 1);
    assert_eq!(toks[0].kind, TokenKind::TOK_EOF);
    assert_eq!(toks[0].span.start, 0);
    assert_eq!(toks[0].span.end, 0);
}

#[test]
fn lex_keywords_and_identifiers() {
    assert_eq!(
        kinds("fn if else let wkwk foo fnx _x x1"),
        vec![
            TokenKind::KW_FN,
            TokenKind::KW_IF,
            TokenKind::KW_ELSE,
            TokenKind::KW_LET,
            TokenKind::LIT_IDENT,
            TokenKind::LIT_IDENT,
            TokenKind::LIT_IDENT,
            TokenKind::LIT_IDENT,
            TokenKind::LIT_IDENT,
            TokenKind::TOK_EOF,
        ]
    );
}

#[test]
fn lex_operators_longest_first() {
    assert_eq!(
        kinds("== = != ! <= < >= > || &&"),
        vec![
            TokenKind::OP_EQEQ,
            TokenKind::OP_EQ,
            TokenKind::OP_NEQ,
            TokenKind::OP_BANG,
            TokenKind::OP_LE,
            TokenKind::OP_LT,
            TokenKind::OP_GE,
            TokenKind::OP_GT,
            TokenKind::OP_OR,
            TokenKind::OP_AND,
            TokenKind::TOK_EOF,
        ]
    );
}

#[test]
fn lex_punctuation_and_arithmetic() {
    assert_eq!(
        kinds("; ( ) { } , - + * /"),
        vec![
            TokenKind::TOK_SEMI,
            TokenKind::TOK_LPAREN,
            TokenKind::TOK_RPAREN,
            TokenKind::TOK_LBRACE,
            TokenKind::TOK_RBRACE,
            TokenKind::COMMA,
            TokenKind::OP_MINUS,
            TokenKind::OP_PLUS,
            TokenKind::OP_STAR,
            TokenKind::OP_SLASH,
            TokenKind::TOK_EOF,
        ]
    );
}

#[test]
fn lex_integer_spans_are_byte_offsets() {
    let toks = lex(b"12 345");
    assert_eq!(toks[0].kind, TokenKind::LIT_INT);
    assert_eq!((toks[0].span.start, toks[0].span.end), (0, 2));
    assert_eq!(toks[1].kind, TokenKind::LIT_INT);
    assert_eq!((toks[1].span.start, toks[1].span.end), (3, 6));
}

#[test]
fn lex_string_literal_with_escape() {
    let toks = lex(br#""a\"b" x"#);
    assert_eq!(toks[0].kind, TokenKind::LIT_STR);
    assert_eq!((toks[0].span.start, toks[0].span.end), (0, 6));
    assert_eq!(toks[1].kind, TokenKind::LIT_IDENT);
}

#[test]
fn lex_unterminated_string_is_an_error_token() {
    let toks = lex(b"\"abc");
    assert_eq!(toks[0].kind, TokenKind::TOK_ERROR);
    assert_eq!(toks[1].kind, TokenKind::TOK_EOF);
}

#[test]
fn lex_unlexable_bytes_become_error_tokens() {
    let toks = lex(b"1 @ 2");
    assert_eq!(toks[0].kind, TokenKind::LIT_INT);
    assert_eq!(toks[1].kind, TokenKind::TOK_ERROR);
    assert_eq!((toks[1].span.start, toks[1].span.end), (2, 3));
    assert_eq!(toks[2].kind, TokenKind::LIT_INT);
}

#[test]
fn lex_single_pipe_and_ampersand_are_errors() {
    assert_eq!(
        kinds("| &"),
        vec![TokenKind::TOK_ERROR, TokenKind::TOK_ERROR, TokenKind::TOK_EOF]
    );
}
