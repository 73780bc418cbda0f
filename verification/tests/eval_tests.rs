use tinyscript::ast::{BinaryOp, UnaryOp};
use tinyscript::error::{Error, ErrorKind};
use tinyscript::eval::{Evaluator, Value, ValueKind};
use tinyscript::parse;

fn run(src: &str) -> Result<Value, Error> {
    let program = parse(src.as_bytes()).expect("program should parse");
    Evaluator::new().eval_program(program)
}

fn run_ok(src: &str) -> Value {
    run(src).expect("program should evaluate")
}

fn run_err(src: &str) -> Error {
    run(src).err().expect("program should fail to evaluate")
}

fn assert_int(src: &str, expected: i64) {
    match run_ok(src) {
        Value::Int(i) => assert_eq!(i, expected, "program: {src}"),
        other => panic!("expected Int from {src}, got {other:?}"),
    }
}

#[test]
fn literals_evaluate_to_themselves() {
    assert_int("42", 42);
    match run_ok("\"hi\"") {
        Value::Str(s) => assert_eq!(s, "hi"),
        other => panic!("expected Str, got {other:?}"),
    }
}

#[test]
fn empty_and_terminated_programs_have_no_value() {
    assert!(matches!(run_ok(""), Value::NoValue));
    assert!(matches!(run_ok("1 + 1;"), Value::NoValue));
}

#[test]
fn arithmetic_and_shared_precedence() {
    assert_int("1 + 1", 2);
    assert_int("1 + 2 * 3", 9); // (1 + 2) * 3 under this grammar
    assert_int("10 - 2 - 3", 5);
    assert_int("7 / 2", 3);
    assert_int("-7 / 2", -3); // division truncates toward zero
    assert_int("7 / -2", -3);
    assert_int("-7 / -2", 3);
}

#[test]
fn division_by_zero_fails() {
    let e = run_err("1 / 0");
    assert_eq!(e.kind, ErrorKind::DivisionByZero);
}

#[test]
fn comparisons_give_booleans() {
    assert!(matches!(run_ok("1 < 2"), Value::Bool(true)));
    assert!(matches!(run_ok("2 <= 1"), Value::Bool(false)));
    assert!(matches!(run_ok("3 == 3"), Value::Bool(true)));
    assert!(matches!(run_ok("3 != 3"), Value::Bool(false)));
    assert!(matches!(run_ok("2 > 1"), Value::Bool(true)));
    assert!(matches!(run_ok("1 >= 2"), Value::Bool(false)));
}

#[test]
fn logic_is_eager_and_boolean_only() {
    assert!(matches!(run_ok("1 < 2 && 2 < 3"), Value::Bool(true)));
    assert!(matches!(run_ok("1 > 2 || 2 > 3"), Value::Bool(false)));
    let e = run_err("1 && 2");
    assert_eq!(
        e.kind,
        ErrorKind::UnsupportedOperation {
            op: BinaryOp::And,
            lhs: ValueKind::Int,
            rhs: ValueKind::Int
        }
    );
}

#[test]
fn mixed_operand_kinds_are_unsupported() {
    let e = run_err("1 + \"x\"");
    assert_eq!(
        e.kind,
        ErrorKind::UnsupportedOperation {
            op: BinaryOp::Add,
            lhs: ValueKind::Int,
            rhs: ValueKind::Str
        }
    );
}

#[test]
fn unary_minus_is_for_integers_only() {
    assert_int("-3", -3);
    assert_int("--3", 3);
    let e = run_err("-\"x\"");
    assert_eq!(
        e.kind,
        ErrorKind::InvalidUnaryApplication { op: UnaryOp::Minus, operand: ValueKind::Str }
    );
}

#[test]
fn not_works_on_any_value_through_truthiness() {
    assert!(matches!(run_ok("!0"), Value::Bool(true)));
    assert!(matches!(run_ok("!1"), Value::Bool(false)));
    assert!(matches!(run_ok("!\"\""), Value::Bool(true)));
    assert!(matches!(run_ok("!\"x\""), Value::Bool(false)));
    assert!(matches!(run_ok("!(1 == 1)"), Value::Bool(false)));
}

#[test]
fn if_on_falsy_integer_takes_else() {
    assert_int("if 0 { 1 } else { 2 }", 2);
}

#[test]
fn if_on_nonempty_string_takes_then() {
    assert_int("if \"x\" { 1 } else { 2 }", 1);
}

#[test]
fn if_without_matching_branch_gives_no_value() {
    assert!(matches!(run_ok("if 0 { 1 }"), Value::NoValue));
    assert_int("if 0 { 1 } else if 1 { 2 } else { 3 }", 2);
}

#[test]
fn let_binds_and_identifiers_resolve() {
    assert_int("let x = 1; x + 2", 3);
    assert_int("let x = 1; let x = x + 1; x", 2);
}

#[test]
fn undefined_variable_is_reported_by_name() {
    let e = run_err("missing");
    assert_eq!(e.kind, ErrorKind::UndefinedVariable { name: "missing".to_owned() });
}

#[test]
fn block_shadowing_does_not_leak() {
    // the inner block sees its own x; the outer x is untouched afterwards
    assert_int("let x = 1; let y = { let x = 2; x }; y", 2);
    assert_int("let x = 1; { let x = 2; x }; x", 1);
}

#[test]
fn block_value_is_its_tail() {
    assert_int("{ let a = 2; a * a }", 4);
    assert!(matches!(run_ok("{ 5; }"), Value::NoValue));
}

#[test]
fn functions_apply_arguments() {
    assert_int("fn add(a, b) { a + b } add(2, 3)", 5);
    assert_int("fn id(x) { x } id(7)", 7);
}

#[test]
fn calls_use_lexical_scoping_not_dynamic() {
    // f reads the y at its declaration site, not the caller's y
    assert_int("let y = 1; fn f() { y } fn g() { let y = 2; f() } g()", 1);
}

#[test]
fn closures_keep_their_defining_scope_alive() {
    assert_int("fn make() { let y = 10; fn inner() { y } inner } make()()", 10);
}

#[test]
fn closures_see_later_sibling_bindings() {
    // the capture shares the environment rather than snapshotting it
    assert_int("fn f() { z } let z = 4; f()", 4);
}

#[test]
fn arity_mismatch_names_both_counts() {
    let e = run_err("fn two(a, b) { a } two(1)");
    assert_eq!(e.kind, ErrorKind::ArityMismatch { expected: 2, actual: 1 });
    let e = run_err("fn zero() { 0 } zero(1, 2, 3)");
    assert_eq!(e.kind, ErrorKind::ArityMismatch { expected: 0, actual: 3 });
}

#[test]
fn calling_a_non_function_is_not_callable() {
    let e = run_err("let x = 3; x(1)");
    assert_eq!(e.kind, ErrorKind::NotCallable { kind: ValueKind::Int });
}

#[test]
fn recursion_works() {
    assert_int(
        "fn fact(n) { if n < 2 { 1 } else { n * fact(n - 1) } } fact(5)",
        120,
    );
}

#[test]
fn expression_statements_run_for_their_errors() {
    let e = run_err("1 / 0; 2");
    assert_eq!(e.kind, ErrorKind::DivisionByZero);
}

#[test]
fn function_value_kind_and_truthiness() {
    assert_int("fn f() { 1 } if f { 2 } else { 3 }", 2);
    let v = run_ok("fn f() { 1 } f");
    assert_eq!(v.kind_name(), "function");
    assert!(v.is_truthy());
}

#[test]
fn kind_names_match_diagnostics() {
    assert_eq!(run_ok("1").kind_name(), "int");
    assert_eq!(run_ok("\"s\"").kind_name(), "string");
    assert_eq!(run_ok("1 == 1").kind_name(), "bool");
    assert_eq!(run_ok("").kind_name(), "none");
}

#[test]
fn arithmetic_wraps_at_the_integer_boundary() {
    assert_int("9223372036854775807 + 1", i64::MIN);
    assert_int("0 - 9223372036854775807 - 1", i64::MIN);
}

#[test]
fn empty_block_has_no_value() {
    assert!(matches!(run_ok("{}"), Value::NoValue));
}

#[test]
fn block_expression_can_be_called_directly() {
    assert_int("{ fn g() { 3 } g }()", 3);
}

#[test]
fn if_conditions_are_tested_in_source_order() {
    // the failing name in the second condition is only reached because
    // the first condition is falsy
    let e = run_err("if 0 { 1 } else if missing { 2 } else { 3 }");
    assert_eq!(e.kind, ErrorKind::UndefinedVariable { name: "missing".to_owned() });
    // a truthy first condition never evaluates the rest
    assert_int("if 1 { 1 } else if missing { 2 } else { 3 }", 1);
}

#[test]
fn parameters_bind_in_the_call_environment() {
    assert_int("fn f(x) { let x = x + 1; x } f(1)", 2);
    // a repeated parameter name takes the later argument
    assert_int("fn g(a, a) { a } g(1, 2)", 2);
}

#[test]
fn nested_closures_capture_through_levels() {
    assert_int(
        "fn outer(a) { fn middle(b) { fn inner(c) { a + b + c } inner } middle } outer(1)(2)(4)",
        7,
    );
}

#[test]
fn value_equality_compares_contents_only() {
    assert_eq!(Value::Int(3), Value::Int(3));
    assert_ne!(Value::Int(3), Value::Int(4));
    assert_eq!(Value::Str("a".to_owned()), Value::Str("a".to_owned()));
    assert_ne!(Value::Str("a".to_owned()), Value::Str("b".to_owned()));
    assert_eq!(Value::Bool(true), Value::Bool(true));
    assert_ne!(Value::Int(1), Value::Bool(true));
    // the no-value and functions never compare equal, not even to themselves
    assert_ne!(Value::NoValue, Value::NoValue);
    let f = run_ok("fn f() { 1 } f");
    let g = run_ok("fn f() { 1 } f");
    assert_ne!(f, g);
}

#[test]
fn wkwk_is_an_ordinary_variable_name() {
    assert_int("let wkwk = 5; wkwk", 5);
}
