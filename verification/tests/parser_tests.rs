use tinyscript::ast::{
    BinaryOp, Expr, ExprBinary, ExprInt, Program, Stmt,
};
use tinyscript::error::{error, Error, ErrorKind};
use tinyscript::lexer::TokenKind;
use tinyscript::parse;
use tinyscript::parser::{binding_power, promote_tail};
use tinyscript::span::Span;

fn parse_ok(src: &str) -> Program {
    parse(src.as_bytes()).expect("program should parse")
}

fn parse_err(src: &str) -> Error {
    parse(src.as_bytes()).err().expect("program should fail to parse")
}

fn lit(v: i64) -> Expr {
    Expr::Int(Box::new(ExprInt { value: v }))
}

fn binary(op: BinaryOp, lhs: Expr, rhs: Expr) -> Expr {
    Expr::Binary(Box::new(ExprBinary { lhs, op, rhs }))
}

#[test]
fn tail_promotion_without_separator() {
    // "1 + 1" ends in an expression statement with no separator, so the
    // expression is promoted to the program's tail value
    let p = parse_ok("1 + 1");
    assert_eq!(p.body.len(), 0);
    assert_eq!(p.tail, Some(binary(BinaryOp::Add, lit(1), lit(1))));
}

#[test]
fn tail_promotion_blocked_by_separator() {
    // with a trailing separator the program has no tail value
    let p = parse_ok("1 + 1;");
    assert_eq!(p.body.len(), 1);
    assert_eq!(p.tail, None);
}

#[test]
fn tail_promotion_inside_blocks() {
    let p = parse_ok("{ 2 }");
    match p.tail {
        Some(Expr::Block(b)) => {
            assert_eq!(b.body.len(), 0);
            assert_eq!(b.tail, Some(lit(2)));
        }
        other => panic!("expected a block tail, got {:?}", other),
    }
    let p = parse_ok("{ 2; }");
    match p.tail {
        Some(Expr::Block(b)) => {
            assert_eq!(b.body.len(), 1);
            assert_eq!(b.tail, None);
        }
        other => panic!("expected a block tail, got {:?}", other),
    }
}

#[test]
fn star_and_plus_share_a_precedence_tier() {
    // under this grammar `1 + 2 * 3` groups left: (1 + 2) * 3, NOT the
    // conventional 1 + (2 * 3)
    let p = parse_ok("1 + 2 * 3");
    let expected = binary(
        BinaryOp::Multiply,
        binary(BinaryOp::Add, lit(1), lit(2)),
        lit(3),
    );
    assert_eq!(p.tail, Some(expected));
}

#[test]
fn comparison_binds_looser_than_arithmetic() {
    let p = parse_ok("1 + 2 < 4");
    let expected = binary(
        BinaryOp::LessThan,
        binary(BinaryOp::Add, lit(1), lit(2)),
        lit(4),
    );
    assert_eq!(p.tail, Some(expected));
}

#[test]
fn parentheses_group_but_leave_no_node() {
    let p = parse_ok("1 + (2 * 3)");
    let expected = binary(
        BinaryOp::Add,
        lit(1),
        binary(BinaryOp::Multiply, lit(2), lit(3)),
    );
    assert_eq!(p.tail, Some(expected));
}

#[test]
fn unary_minus_binds_tighter_than_binary() {
    let p = parse_ok("-7 / 2");
    match p.tail {
        Some(Expr::Binary(b)) => {
            assert_eq!(b.op, BinaryOp::Divide);
            assert!(matches!(b.lhs, Expr::Unary(_)));
            assert_eq!(b.rhs, lit(2));
        }
        other => panic!("expected a binary tail, got {:?}", other),
    }
}

#[test]
fn call_is_postfix_and_tightest() {
    let p = parse_ok("f(1, 2) + 3");
    match p.tail {
        Some(Expr::Binary(b)) => {
            assert_eq!(b.op, BinaryOp::Add);
            match &b.lhs {
                Expr::Call(c) => {
                    assert!(matches!(c.callee, Expr::Identifier(_)));
                    assert_eq!(c.args.len(), 2);
                }
                other => panic!("expected a call, got {:?}", other),
            }
        }
        other => panic!("expected a binary tail, got {:?}", other),
    }
}

#[test]
fn fn_declaration_parses_name_params_body() {
    let p = parse_ok("fn add(a, b) { a + b }");
    assert_eq!(p.body.len(), 1);
    match &p.body[0] {
        Stmt::Fn(f) => {
            assert_eq!(f.name, "add");
            assert_eq!(f.params, vec!["a".to_owned(), "b".to_owned()]);
            assert!(f.body.tail.is_some());
        }
        other => panic!("expected a fn declaration, got {:?}", other),
    }
}

#[test]
fn let_declaration_requires_separator() {
    let p = parse_ok("let x = 1; x");
    assert_eq!(p.body.len(), 1);
    assert!(matches!(&p.body[0], Stmt::Let(l) if l.name == "x"));
    let e = parse_err("let x = 1");
    assert_eq!(
        e.kind,
        ErrorKind::UnexpectedToken { expected: TokenKind::TOK_SEMI, found: TokenKind::TOK_EOF }
    );
}

#[test]
fn if_else_if_else_chain() {
    let p = parse_ok("if a { 1 } else if b { 2 } else { 3 }");
    match p.tail {
        Some(Expr::If(i)) => {
            assert_eq!(i.branches.len(), 2);
            assert!(i.tail.is_some());
        }
        other => panic!("expected an if tail, got {:?}", other),
    }
}

#[test]
fn string_literal_value_is_trimmed_of_quotes() {
    let p = parse_ok("\"hello\"");
    match p.tail {
        Some(Expr::Str(s)) => assert_eq!(s.value, "hello"),
        other => panic!("expected a string tail, got {:?}", other),
    }
}

#[test]
fn missing_separator_between_statements_is_an_error() {
    let e = parse_err("let x = 1; 2 let y = 3;");
    assert_eq!(e.kind, ErrorKind::MissingSeparator { found: TokenKind::KW_LET });
}

#[test]
fn unexpected_primary_reports_offending_token() {
    let e = parse_err("1 + ;");
    assert_eq!(e.kind, ErrorKind::UnexpectedPrimary { found: TokenKind::TOK_SEMI });
    assert_eq!((e.span.start, e.span.end), (4, 5));
}

#[test]
fn unclosed_parenthesis_is_an_error() {
    let e = parse_err("(1 + 2");
    assert_eq!(
        e.kind,
        ErrorKind::UnexpectedToken { expected: TokenKind::TOK_RPAREN, found: TokenKind::TOK_EOF }
    );
}

#[test]
fn integer_literal_too_large_is_rejected() {
    let p = parse_ok("9223372036854775807");
    assert_eq!(p.tail, Some(lit(i64::MAX)));
    let e = parse_err("9223372036854775808");
    assert_eq!(e.kind, ErrorKind::IntLitOverflow);
}

#[test]
fn error_token_in_input_fails_the_parse() {
    let e = parse_err("1 + @");
    assert_eq!(e.kind, ErrorKind::UnexpectedPrimary { found: TokenKind::TOK_ERROR });
}

#[test]
fn params_allow_trailing_comma() {
    let p = parse_ok("fn g(a, b,) { a }");
    match &p.body[0] {
        Stmt::Fn(f) => assert_eq!(f.params.len(), 2),
        other => panic!("expected a fn declaration, got {:?}", other),
    }
}

#[test]
fn params_without_separating_comma_are_rejected() {
    let e = parse_err("fn f(a b) { a }");
    assert_eq!(
        e.kind,
        ErrorKind::UnexpectedToken { expected: TokenKind::TOK_RPAREN, found: TokenKind::LIT_IDENT }
    );
}

#[test]
fn promote_tail_moves_only_an_unterminated_final_expression() {
    let (rest, tail) = promote_tail(vec![Stmt::Expr(Box::new(lit(1)))], false);
    assert!(rest.is_empty());
    assert_eq!(tail, Some(lit(1)));
    let (rest, tail) = promote_tail(vec![Stmt::Expr(Box::new(lit(1)))], true);
    assert_eq!(rest.len(), 1);
    assert_eq!(tail, None);
    let (rest, tail) = promote_tail(vec![], false);
    assert!(rest.is_empty());
    assert_eq!(tail, None);
}

#[test]
fn binding_power_table_shares_the_arithmetic_tier() {
    assert_eq!(binding_power(&TokenKind::OP_STAR), Some(6));
    assert_eq!(binding_power(&TokenKind::OP_SLASH), Some(6));
    assert_eq!(binding_power(&TokenKind::OP_PLUS), Some(6));
    assert_eq!(binding_power(&TokenKind::OP_MINUS), Some(6));
    assert_eq!(binding_power(&TokenKind::OP_OR), Some(1));
    assert_eq!(binding_power(&TokenKind::OP_AND), Some(2));
    assert_eq!(binding_power(&TokenKind::OP_EQEQ), Some(3));
    assert_eq!(binding_power(&TokenKind::OP_LT), Some(4));
    assert_eq!(binding_power(&TokenKind::OP_GT), Some(5));
    assert_eq!(binding_power(&TokenKind::TOK_LPAREN), Some(8));
    assert_eq!(binding_power(&TokenKind::TOK_SEMI), None);
    assert_eq!(binding_power(&TokenKind::LIT_INT), None);
}

#[test]
fn error_builder_keeps_span_and_kind() {
    let e = error(Span { start: 4, end: 6 }, ErrorKind::IntLitOverflow);
    assert_eq!((e.span.start, e.span.end), (4, 6));
    assert_eq!(e.kind, ErrorKind::IntLitOverflow);
}

#[test]
fn non_ascii_string_literals_keep_their_text() {
    let p = parse_ok("\"h\u{e9}llo\"");
    match p.tail {
        Some(Expr::Str(s)) => assert_eq!(s.value, "h\u{e9}llo"),
        other => panic!("expected a string tail, got {:?}", other),
    }
}
