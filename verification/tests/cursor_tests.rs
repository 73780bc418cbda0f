use tinyscript::cursor::Cursor;
use tinyscript::error::ErrorKind;
use tinyscript::eval::{Environment, Evaluator, Value};
use tinyscript::lexer::{lex, TokenKind};
use tinyscript::span::Span;

fn cursor_over(src: &'static str) -> Cursor<'static> {
    Cursor { code: src.as_bytes(), position: 0, tokens: lex(src.as_bytes()) }
}

#[test]
fn span_accessors_widen_offsets() {
    let s = Span::empty();
    assert_eq!(s.start, 0);
    assert_eq!(s.end, 0);
    let s = Span { start: 3, end: 7 };
    assert_eq!(s.start(), 3usize);
    assert_eq!(s.end(), 7usize);
}

#[test]
fn cursor_peeks_without_consuming() {
    let c = cursor_over("let x");
    assert_eq!(c.kind(), TokenKind::KW_LET);
    assert!(c.at(TokenKind::KW_LET));
    assert!(!c.at(TokenKind::LIT_IDENT));
    assert_eq!(c.position, 0);
}

#[test]
fn cursor_advance_saturates_at_end_of_input() {
    let mut c = cursor_over("x");
    c.advance();
    assert!(c.at(TokenKind::TOK_EOF));
    c.advance();
    c.advance();
    assert!(c.at(TokenKind::TOK_EOF));
}

#[test]
fn cursor_eat_consumes_only_on_match() {
    let mut c = cursor_over("x;");
    assert!(!c.eat(TokenKind::TOK_SEMI));
    assert_eq!(c.position, 0);
    assert!(c.eat(TokenKind::LIT_IDENT));
    assert_eq!(c.position, 1);
    assert!(c.eat(TokenKind::TOK_SEMI));
    assert!(c.at(TokenKind::TOK_EOF));
}

#[test]
fn cursor_was_reports_the_previously_consumed_kind() {
    let mut c = cursor_over("1; 2");
    assert!(!c.was(TokenKind::TOK_SEMI));
    c.advance();
    c.advance();
    assert!(c.was(TokenKind::TOK_SEMI));
    assert!(!c.was(TokenKind::LIT_INT));
}

#[test]
fn cursor_must_returns_token_or_error() {
    let mut c = cursor_over("x y");
    let t = c.must(TokenKind::LIT_IDENT).expect("x is an identifier");
    assert_eq!((t.span.start, t.span.end), (0, 1));
    let e = c.must(TokenKind::TOK_SEMI).err().expect("y is no separator");
    assert_eq!(
        e.kind,
        ErrorKind::UnexpectedToken { expected: TokenKind::TOK_SEMI, found: TokenKind::LIT_IDENT }
    );
    assert_eq!((e.span.start, e.span.end), (2, 3));
    // the cursor is untouched after the failure
    assert_eq!(c.position, 1);
}

#[test]
fn cursor_lexeme_reads_the_span_text() {
    let c = cursor_over("let abc = 1;");
    let toks = lex(b"let abc = 1;");
    assert_eq!(c.lexeme(toks[1]), "abc");
    assert_eq!(c.lexeme(toks[0]), "let");
}

#[test]
fn environment_define_then_get() {
    let mut root = Environment::new();
    root.define("a".to_owned(), Value::Int(1));
    root.define("a".to_owned(), Value::Int(2));
    let envs = vec![root];
    match Environment::get(&envs, 0, &"a".to_owned()) {
        Some(Value::Int(i)) => assert_eq!(i, 2),
        other => panic!("expected the later binding, got {other:?}"),
    }
    assert!(Environment::get(&envs, 0, &"b".to_owned()).is_none());
}

#[test]
fn environment_get_walks_the_parent_chain() {
    let mut root = Environment::new();
    root.define("x".to_owned(), Value::Int(1));
    let child = Environment::extend(0);
    let envs = vec![root, child];
    match Environment::get(&envs, 1, &"x".to_owned()) {
        Some(Value::Int(i)) => assert_eq!(i, 1),
        other => panic!("expected the outer binding, got {other:?}"),
    }
}

#[test]
fn environment_assign_overwrites_where_found() {
    let mut root = Environment::new();
    root.define("x".to_owned(), Value::Int(1));
    let mut child = Environment::extend(0);
    child.define("y".to_owned(), Value::Int(5));
    let mut envs = vec![root, child];
    // x lives in the root: assignment through the child reaches it
    assert!(Environment::assign(&mut envs, 1, &"x".to_owned(), Value::Int(9)));
    match Environment::get(&envs, 1, &"x".to_owned()) {
        Some(Value::Int(i)) => assert_eq!(i, 9),
        other => panic!("expected the overwritten binding, got {other:?}"),
    }
    // a name bound nowhere reports failure and changes nothing
    assert!(!Environment::assign(&mut envs, 1, &"z".to_owned(), Value::Int(0)));
    assert!(Environment::get(&envs, 1, &"z".to_owned()).is_none());
}

#[test]
fn evaluator_starts_with_one_root_environment() {
    let ev = Evaluator::new();
    assert_eq!(ev.envs.len(), 1);
    assert_eq!(ev.env, 0);
    assert!(ev.envs[0].parent.is_none());
}

#[test]
fn value_helpers_classify_and_test() {
    assert!(Value::Bool(true).is_truthy());
    assert!(!Value::Bool(false).is_truthy());
    assert!(Value::Int(-1).is_truthy());
    assert!(!Value::Int(0).is_truthy());
    assert!(Value::Str("x".to_owned()).is_truthy());
    assert!(!Value::Str(String::new()).is_truthy());
    assert!(!Value::NoValue.is_truthy());
    assert_eq!(Value::Int(0).kind_name(), "int");
    assert_eq!(Value::Bool(true).kind_name(), "bool");
    assert_eq!(Value::NoValue.kind_name(), "none");
    assert_eq!(Value::Str(String::new()).kind_name(), "string");
}
