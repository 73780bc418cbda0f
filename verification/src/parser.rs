use vstd::prelude::*;

use crate::ast::{
    deep_branches, deep_exprs, deep_params, deep_stmts, lemma_deep_branches_push,
    lemma_deep_exprs_push, lemma_deep_stmts_index, lemma_deep_stmts_push, BinaryOp, Block, Expr,
    BranchV, ExprBinary, ExprCall, ExprIdent, ExprIf, ExprInt, ExprStr, ExprUnary, IfBranch,
    Program, Stmt, StmtFn, StmtLet, StmtV, UnaryOp,
};
use crate::cursor::{chars_of, decoded_chars, Cursor};
use crate::error::{err_from_input, error, Error, ErrorKind};
use crate::grammar::{
    spec_arg_loop, spec_bp_loop, spec_if_loop, spec_param_loop, spec_parse_arg_list,
    spec_parse_block, spec_parse_expr, spec_parse_expr_bp, spec_parse_expr_if,
    spec_parse_identifier, spec_parse_param_list, spec_parse_primary, spec_parse_program,
    spec_parse_stmt, spec_parse_stmt_expr, spec_parse_stmt_fn, spec_parse_stmt_let,
    spec_parse_stmts, spec_promote,
};
use crate::lexer::{is_digit, is_ident_cont, lexeme_matches, TokenKind};

verus! {

/// The binding-power table: `||` < `&&` < `==`,`!=` < `<`,`<=` < `>`,`>=`
/// < `+`,`-`,`*`,`/` (one shared tier) < call application. Tokens that are
/// no infix operator have no binding power.
pub open spec fn spec_binding_power(kind: TokenKind) -> Option<u8> {
    match kind {
        TokenKind::OP_OR => Some(1u8),
        TokenKind::OP_AND => Some(2u8),
        TokenKind::OP_EQEQ => Some(3u8),
        TokenKind::OP_NEQ => Some(3u8),
        TokenKind::OP_LT => Some(4u8),
        TokenKind::OP_LE => Some(4u8),
        TokenKind::OP_GT => Some(5u8),
        TokenKind::OP_GE => Some(5u8),
        TokenKind::OP_PLUS => Some(6u8),
        TokenKind::OP_MINUS => Some(6u8),
        TokenKind::OP_STAR => Some(6u8),
        TokenKind::OP_SLASH => Some(6u8),
        TokenKind::TOK_LPAREN => Some(8u8),
        _ => None,
    }
}

/// The infix operator a token stands for, when it stands for one.
pub open spec fn spec_token_binary_op(kind: TokenKind) -> Option<BinaryOp> {
    match kind {
        TokenKind::OP_PLUS => Some(BinaryOp::Add),
        TokenKind::OP_MINUS => Some(BinaryOp::Subtract),
        TokenKind::OP_STAR => Some(BinaryOp::Multiply),
        TokenKind::OP_SLASH => Some(BinaryOp::Divide),
        TokenKind::OP_OR => Some(BinaryOp::Or),
        TokenKind::OP_AND => Some(BinaryOp::And),
        TokenKind::OP_EQEQ => Some(BinaryOp::Equal),
        TokenKind::OP_NEQ => Some(BinaryOp::NotEqual),
        TokenKind::OP_LT => Some(BinaryOp::LessThan),
        TokenKind::OP_LE => Some(BinaryOp::LessOrEqual),
        TokenKind::OP_GT => Some(BinaryOp::GreaterThan),
        TokenKind::OP_GE => Some(BinaryOp::GreaterOrEqual),
        _ => None,
    }
}

/// The numeric value spelled by a run of decimal digit bytes.
pub open spec fn digits_val(s: Seq<u8>) -> int
    decreases s.len(),
{
    if s.len() == 0 {
        0
    } else {
        digits_val(s.drop_last()) * 10 + (s.last() - 48)
    }
}

pub proof fn lemma_digits_val_nonneg(s: Seq<u8>)
    requires
        forall|k: int| 0 <= k < s.len() ==> is_digit(s[k]),
    ensures
        digits_val(s) >= 0,
    decreases s.len(),
{
    if s.len() > 0 {
        lemma_digits_val_nonneg(s.drop_last());
    }
}

/// Reading more digits never shrinks the value.
pub proof fn lemma_digits_val_prefix(s: Seq<u8>, k: int)
    requires
        0 <= k <= s.len(),
        forall|j: int| 0 <= j < s.len() ==> is_digit(s[j]),
    ensures
        digits_val(s.subrange(0, k)) <= digits_val(s),
    decreases s.len() - k,
{
    if k < s.len() {
        lemma_digits_val_prefix(s, k + 1);
        let a = s.subrange(0, k);
        let b = s.subrange(0, k + 1);
        assert(b.drop_last() =~= a);
        lemma_digits_val_nonneg(a);
    } else {
        assert(s.subrange(0, k) =~= s);
    }
}

/// Reads the decimal value of the digit bytes in `src[start..end]`, or
/// nothing when that value does not fit in an `i64`.
fn parse_int_value(src: &[u8], start: usize, end: usize) -> (r: Option<i64>)
    requires
        start <= end,
        end <= src@.len(),
        forall|k: int| start <= k < end ==> is_digit(src@[k]),
    ensures
        match r {
            Some(v) => 0 <= v && v == digits_val(src@.subrange(start as int, end as int)),
            None => digits_val(src@.subrange(start as int, end as int)) > i64::MAX,
        },
{
    let ghost whole = src@.subrange(start as int, end as int);
    let mut v: i64 = 0;
    let mut i = start;
    while i < end
        invariant
            start <= i <= end,
            end <= src@.len(),
            forall|k: int| start <= k < end ==> is_digit(src@[k]),
            0 <= v,
            v == digits_val(src@.subrange(start as int, i as int)),
        decreases end - i,
    {
        let ghost pre = src@.subrange(start as int, i as int);
        let ghost cur = src@.subrange(start as int, i + 1);
        proof {
            assert(cur.drop_last() =~= pre);
            assert(cur.last() == src@[i as int]);
        }
        let d = src[i] - 48;
        let v10 = match v.checked_mul(10) {
            Some(x) => x,
            None => {
                proof {
                    lemma_overflow_rest(src@, start as int, i as int, end as int, v * 10 + d);
                }
                return None;
            },
        };
        let v2 = match v10.checked_add(d as i64) {
            Some(x) => x,
            None => {
                proof {
                    lemma_overflow_rest(src@, start as int, i as int, end as int, v * 10 + d);
                }
                return None;
            },
        };
        v = v2;
        i = i + 1;
    }
    proof {
        assert(src@.subrange(start as int, i as int) =~= whole);
    }
    Some(v)
}

/// When the value read up to position `i` already exceeds `i64::MAX`, the
/// whole literal does.
proof fn lemma_overflow_rest(src: Seq<u8>, start: int, i: int, end: int, partial: int)
    requires
        0 <= start <= i < end <= src.len(),
        forall|k: int| start <= k < end ==> is_digit(src[k]),
        partial == digits_val(src.subrange(start, i)) * 10 + (src[i] - 48),
        partial > i64::MAX,
    ensures
        digits_val(src.subrange(start, end)) > i64::MAX,
{
    let whole = src.subrange(start, end);
    let upto = src.subrange(start, i + 1);
    assert(upto.drop_last() =~= src.subrange(start, i));
    assert(upto.last() == src[i]);
    assert(digits_val(upto) == partial);
    assert(forall|j: int| 0 <= j < whole.len() ==> is_digit(whole[j]));
    lemma_digits_val_prefix(whole, i + 1 - start);
    assert(whole.subrange(0, i + 1 - start) =~= upto);
}

/// Implements the implicit-return rule shared by programs and blocks:
/// when the final statement is an expression statement and no separator
/// trailed it, that expression is removed from the statements and becomes
/// the tail value; otherwise everything stays put and there is no tail.
pub fn promote_tail(body: Vec<Stmt>, trailing_semi: bool) -> (r: (Vec<Stmt>, Option<Expr>))
    ensures
        ({
            let (rest, tail) = r;
            if !trailing_semi && body@.len() > 0 && (body@[body@.len() - 1] matches Stmt::Expr(_)) {
                &&& rest@ == body@.subrange(0, body@.len() - 1)
                &&& (body@[body@.len() - 1] matches Stmt::Expr(e) && tail == Some(*e))
            } else {
                &&& rest@ == body@
                &&& tail is None
            }
        }),
{
    let mut body = body;
    let n = body.len();
    if !trailing_semi && n > 0 {
        let is_expr = match &body[n - 1] {
            Stmt::Expr(_) => true,
            _ => false,
        };
        if is_expr {
            match body.pop() {
                Some(Stmt::Expr(e)) => {
                    return (body, Some(*e));
                },
                _ => {
                    proof {
                        assert(false);
                    }
                    return (body, None);
                },
            }
        }
    }
    (body, None)
}

/// `promote_tail`'s effect, seen through the deep views: exactly the
/// grammar's implicit-return rule.
proof fn lemma_promote_deep(body: Seq<Stmt>, trailing: bool, rest: Seq<Stmt>, tail: Option<Expr>)
    requires
        if !trailing && body.len() > 0 && (body[body.len() - 1] matches Stmt::Expr(_)) {
            &&& rest == body.subrange(0, body.len() - 1)
            &&& (body[body.len() - 1] matches Stmt::Expr(e) && tail == Some(*e))
        } else {
            &&& rest == body
            &&& tail is None
        },
    ensures
        spec_promote(deep_stmts(body), trailing) == (
            deep_stmts(rest),
            match tail {
                Some(e) => Some(e.deep()),
                None => None::<crate::ast::ExprV>,
            },
        ),
{
    lemma_deep_stmts_index(body);
    lemma_deep_stmts_index(rest);
    if !trailing && body.len() > 0 && (body[body.len() - 1] matches Stmt::Expr(_)) {
        assert(deep_stmts(body).last() == body[body.len() - 1].deep());
        assert(deep_stmts(rest) =~= deep_stmts(body).drop_last());
    } else {
        if !trailing && body.len() > 0 {
            assert(deep_stmts(body).last() == body[body.len() - 1].deep());
            assert(!(deep_stmts(body).last() matches StmtV::Expr(_)));
        }
    }
}

/// Looks up a token's binding power; the table is `spec_binding_power`.
pub fn binding_power(kind: &TokenKind) -> (r: Option<u8>)
    ensures
        r == spec_binding_power(*kind),
        r matches Some(b) ==> 1 <= b <= 8,
{
    match kind {
        TokenKind::OP_OR => Some(1),
        TokenKind::OP_AND => Some(2),
        TokenKind::OP_EQEQ | TokenKind::OP_NEQ => Some(3),
        TokenKind::OP_LT | TokenKind::OP_LE => Some(4),
        TokenKind::OP_GT | TokenKind::OP_GE => Some(5),
        TokenKind::OP_PLUS | TokenKind::OP_MINUS => Some(6),
        TokenKind::OP_STAR | TokenKind::OP_SLASH => Some(6),
        TokenKind::TOK_LPAREN => Some(8),
        _ => None,
    }
}

/// The deliberate, unconventional choice of this grammar: multiplication
/// and division share one binding-power tier with addition and
/// subtraction, so `1 + 2 * 3` groups as `(1 + 2) * 3`.
pub proof fn lemma_shared_arithmetic_tier()
    ensures
        spec_binding_power(TokenKind::OP_STAR) == spec_binding_power(TokenKind::OP_PLUS),
        spec_binding_power(TokenKind::OP_SLASH) == spec_binding_power(TokenKind::OP_MINUS),
        spec_binding_power(TokenKind::OP_PLUS) == Some(6u8),
{
}

/// Maps an operator token to the binary operator it denotes.
fn token_binary_op(kind: TokenKind) -> (r: Option<BinaryOp>)
    ensures
        r == spec_token_binary_op(kind),
{
    match kind {
        TokenKind::OP_PLUS => Some(BinaryOp::Add),
        TokenKind::OP_MINUS => Some(BinaryOp::Subtract),
        TokenKind::OP_STAR => Some(BinaryOp::Multiply),
        TokenKind::OP_SLASH => Some(BinaryOp::Divide),
        TokenKind::OP_OR => Some(BinaryOp::Or),
        TokenKind::OP_AND => Some(BinaryOp::And),
        TokenKind::OP_EQEQ => Some(BinaryOp::Equal),
        TokenKind::OP_NEQ => Some(BinaryOp::NotEqual),
        TokenKind::OP_LT => Some(BinaryOp::LessThan),
        TokenKind::OP_LE => Some(BinaryOp::LessOrEqual),
        TokenKind::OP_GT => Some(BinaryOp::GreaterThan),
        TokenKind::OP_GE => Some(BinaryOp::GreaterOrEqual),
        _ => None,
    }
}

/// The cursor state a parsing step must preserve: a well-formed cursor
/// over the same source and tokens, never moved backwards.
pub open spec fn parse_frame(pre: Cursor, post: Cursor) -> bool {
    &&& post.wf()
    &&& post.code@ == pre.code@
    &&& post.tokens@ == pre.tokens@
    &&& post.position >= pre.position
}

/// Parses a whole source file: statements until end-of-input, then the
/// implicit-return promotion of an unterminated final expression
/// statement. Succeeds only with the whole input consumed; fails with an
/// error pointing at a token of the input.
#[verifier::loop_isolation(false)]
pub fn parse_program(c: &mut Cursor) -> (r: Result<Program, Error>)
    requires
        old(c).wf(),
    ensures
        parse_frame(*old(c), *final(c)),
        match r {
            Ok(_) => final(c).position == final(c).tokens@.len() - 1,
            Err(e) => err_from_input(old(c).tokens@, e),
        },
        ({
            let sp = spec_parse_program(old(c).code@, old(c).tokens@, old(c).position as int);
            match r {
                Ok(p) => sp == Some((p.deep(), final(c).position as int)),
                Err(_) => sp is None,
            }
        }),
{
    let ghost toks0 = c.tokens@;
    let ghost code0 = c.code@;
    let ghost pos0 = c.position;
    let mut body: Vec<Stmt> = Vec::new();
    proof {
        assert(deep_stmts(body@) =~= Seq::<StmtV>::empty());
    }
    while !c.at(TokenKind::TOK_EOF)
        invariant
            c.wf(),
            c.tokens@ == toks0,
            c.code@ == code0,
            c.position >= pos0,
            spec_parse_stmts(code0, toks0, TokenKind::TOK_EOF, Seq::empty(), pos0 as int)
                == spec_parse_stmts(
                code0,
                toks0,
                TokenKind::TOK_EOF,
                deep_stmts(body@),
                c.position as int,
            ),
        decreases c.tokens@.len() - c.position,
    {
        let ghost body_pre = body@;
        body.push(parse_stmt(c)?);
        proof {
            lemma_deep_stmts_push(body_pre, body@[body@.len() - 1]);
            assert(body@ =~= body_pre.push(body@[body@.len() - 1]));
        }
    }
    let trailing_semi = c.was(TokenKind::TOK_SEMI);
    let ghost body_all = body@;
    let (body, tail) = promote_tail(body, trailing_semi);
    proof {
        assert(c.position == c.tokens@.len() - 1);
        lemma_promote_deep(body_all, trailing_semi, body@, tail);
    }
    Ok(Program { body, tail })
}

/// Dispatches a statement on its leading token: `fn`, `let`, or an
/// expression statement.
fn parse_stmt(c: &mut Cursor) -> (r: Result<Stmt, Error>)
    requires
        old(c).wf(),
    ensures
        parse_frame(*old(c), *final(c)),
        match r {
            Ok(_) => final(c).position > old(c).position,
            Err(e) => err_from_input(old(c).tokens@, e),
        },
        ({
            let k = old(c).tokens@[old(c).position as int].kind;
            r matches Ok(s) ==> match s {
                Stmt::Fn(_) => k == TokenKind::KW_FN,
                Stmt::Let(_) => k == TokenKind::KW_LET,
                Stmt::Expr(_) => k != TokenKind::KW_FN && k != TokenKind::KW_LET,
            }
        }),
        ({
            let sp = spec_parse_stmt(old(c).code@, old(c).tokens@, old(c).position as int);
            match r {
                Ok(st) => sp == Some((st.deep(), final(c).position as int)),
                Err(_) => sp is None,
            }
        }),
    decreases c.tokens@.len() - c.position, 5int,
{
    match c.kind() {
        TokenKind::KW_FN => parse_stmt_fn(c),
        TokenKind::KW_LET => parse_stmt_let(c),
        _ => parse_stmt_expr(c),
    }
}

/// Parses `fn name(params) { body }` into a function declaration.
fn parse_stmt_fn(c: &mut Cursor) -> (r: Result<Stmt, Error>)
    requires
        old(c).wf(),
        old(c).tokens@[old(c).position as int].kind == TokenKind::KW_FN,
    ensures
        parse_frame(*old(c), *final(c)),
        match r {
            Ok(_) => final(c).position > old(c).position,
            Err(e) => err_from_input(old(c).tokens@, e),
        },
        ({
            let t = old(c).tokens@[old(c).position + 1];
            r matches Ok(s) ==> (s matches Stmt::Fn(f) && t.kind == TokenKind::LIT_IDENT
                && f.name@ == chars_of(
                old(c).code@.subrange(t.span.start as int, t.span.end as int),
            ))
        }),
        ({
            let sp = spec_parse_stmt_fn(old(c).code@, old(c).tokens@, old(c).position as int);
            match r {
                Ok(st) => sp == Some((st.deep(), final(c).position as int)),
                Err(_) => sp is None,
            }
        }),
    decreases c.tokens@.len() - c.position, 4int,
{
    c.eat(TokenKind::KW_FN);
    let name = parse_identifier(c)?;
    let params = parse_param_list(c)?;
    let body = parse_block(c)?;
    Ok(Stmt::Fn(Box::new(StmtFn { name, params, body })))
}

/// Consumes an identifier token and returns the name it spells.
fn parse_identifier(c: &mut Cursor) -> (r: Result<String, Error>)
    requires
        old(c).wf(),
    ensures
        parse_frame(*old(c), *final(c)),
        match r {
            Ok(s) => {
                let t = old(c).tokens@[old(c).position as int];
                &&& t.kind == TokenKind::LIT_IDENT
                &&& s@ == chars_of(old(c).code@.subrange(t.span.start as int, t.span.end as int))
                &&& final(c).position > old(c).position
            },
            Err(e) => old(c).tokens@[old(c).position as int].kind != TokenKind::LIT_IDENT
                && err_from_input(old(c).tokens@, e),
        },
        ({
            let sp = spec_parse_identifier(
                old(c).code@,
                old(c).tokens@,
                old(c).position as int,
            );
            match r {
                Ok(s) => sp == Some((s@, final(c).position as int)),
                Err(_) => sp is None,
            }
        }),
{
    let token = c.must(TokenKind::LIT_IDENT)?;
    proof {
        let code = c.code@;
        let t = old(c).tokens@[old(c).position as int];
        assert(lexeme_matches(code, t));
        let s = code.subrange(t.span.start as int, t.span.end as int);
        assert forall|j: int| t.span.start <= j < t.span.end implies code[j] < 128 by {
            assert(is_ident_cont(s[j - t.span.start]));
        }
    }
    Ok(c.lexeme(token))
}

/// Parses the parenthesized, comma-separated parameter names of a
/// function declaration.
#[verifier::loop_isolation(false)]
fn parse_param_list(c: &mut Cursor) -> (r: Result<Vec<String>, Error>)
    requires
        old(c).wf(),
    ensures
        parse_frame(*old(c), *final(c)),
        match r {
            Ok(_) => final(c).position > old(c).position,
            Err(e) => err_from_input(old(c).tokens@, e),
        },
        ({
            let sp = spec_parse_param_list(
                old(c).code@,
                old(c).tokens@,
                old(c).position as int,
            );
            match r {
                Ok(params) => sp == Some((deep_params(params@), final(c).position as int)),
                Err(_) => sp is None,
            }
        }),
{
    let ghost toks0 = c.tokens@;
    let ghost code0 = c.code@;
    let ghost pos0 = c.position;
    let mut params: Vec<String> = Vec::new();
    c.must(TokenKind::TOK_LPAREN)?;
    proof {
        assert(deep_params(params@) =~= Seq::<Seq<char>>::empty());
    }
    while !c.at(TokenKind::TOK_RPAREN)
        invariant
            c.wf(),
            c.tokens@ == toks0,
            c.code@ == code0,
            c.position > pos0,
            spec_parse_param_list(code0, toks0, pos0 as int) == spec_param_loop(
                code0,
                toks0,
                deep_params(params@),
                c.position as int,
            ),
        decreases c.tokens@.len() - c.position,
    {
        let ghost params_pre = params@;
        params.push(parse_identifier(c)?);
        proof {
            assert(deep_params(params@) =~= deep_params(params_pre).push(
                params@[params@.len() - 1]@,
            ));
        }
        // names are comma-separated; without a comma the list must end here
        if !c.eat(TokenKind::COMMA) {
            let closing = c.must(TokenKind::TOK_RPAREN);
            return match closing {
                Ok(_) => Ok(params),
                Err(e) => Err(e),
            };
        }
    }
    c.must(TokenKind::TOK_RPAREN)?;
    Ok(params)
}

/// Parses `{ statements... tail? }`, applying the same implicit-return
/// rule as the whole program.
#[verifier::loop_isolation(false)]
fn parse_block(c: &mut Cursor) -> (r: Result<Block, Error>)
    requires
        old(c).wf(),
    ensures
        parse_frame(*old(c), *final(c)),
        match r {
            Ok(_) => final(c).position > old(c).position,
            Err(e) => err_from_input(old(c).tokens@, e),
        },
        ({
            let sp = spec_parse_block(old(c).code@, old(c).tokens@, old(c).position as int);
            match r {
                Ok(b) => sp == Some((b.deep(), final(c).position as int)),
                Err(_) => sp is None,
            }
        }),
    decreases c.tokens@.len() - c.position, 0int,
{
    let ghost toks0 = c.tokens@;
    let ghost code0 = c.code@;
    let ghost pos0 = c.position;
    c.must(TokenKind::TOK_LBRACE)?;
    let mut body: Vec<Stmt> = Vec::new();
    proof {
        assert(deep_stmts(body@) =~= Seq::<StmtV>::empty());
    }
    while !c.at(TokenKind::TOK_RBRACE)
        invariant
            c.wf(),
            c.tokens@ == toks0,
            c.code@ == code0,
            c.position > pos0,
            spec_parse_stmts(code0, toks0, TokenKind::TOK_RBRACE, Seq::empty(), pos0 + 1)
                == spec_parse_stmts(
                code0,
                toks0,
                TokenKind::TOK_RBRACE,
                deep_stmts(body@),
                c.position as int,
            ),
        decreases c.tokens@.len() - c.position,
    {
        let ghost body_pre = body@;
        body.push(parse_stmt(c)?);
        proof {
            lemma_deep_stmts_push(body_pre, body@[body@.len() - 1]);
            assert(body@ =~= body_pre.push(body@[body@.len() - 1]));
        }
    }
    let trailing_semi = c.was(TokenKind::TOK_SEMI);
    c.must(TokenKind::TOK_RBRACE)?;
    let ghost body_all = body@;
    let (body, tail) = promote_tail(body, trailing_semi);
    proof {
        lemma_promote_deep(body_all, trailing_semi, body@, tail);
    }
    Ok(Block { body, tail })
}

/// Parses `let name = value;` into a binding declaration.
fn parse_stmt_let(c: &mut Cursor) -> (r: Result<Stmt, Error>)
    requires
        old(c).wf(),
        old(c).tokens@[old(c).position as int].kind == TokenKind::KW_LET,
    ensures
        parse_frame(*old(c), *final(c)),
        match r {
            Ok(_) => final(c).position > old(c).position,
            Err(e) => err_from_input(old(c).tokens@, e),
        },
        ({
            let t = old(c).tokens@[old(c).position + 1];
            r matches Ok(s) ==> (s matches Stmt::Let(l) && t.kind == TokenKind::LIT_IDENT
                && l.name@ == chars_of(
                old(c).code@.subrange(t.span.start as int, t.span.end as int),
            ))
        }),
        ({
            let sp = spec_parse_stmt_let(old(c).code@, old(c).tokens@, old(c).position as int);
            match r {
                Ok(st) => sp == Some((st.deep(), final(c).position as int)),
                Err(_) => sp is None,
            }
        }),
    decreases c.tokens@.len() - c.position, 4int,
{
    c.eat(TokenKind::KW_LET);
    let name = parse_identifier(c)?;
    c.must(TokenKind::OP_EQ)?;
    let value = parse_expr(c)?;
    c.must(TokenKind::TOK_SEMI)?;
    Ok(Stmt::Let(Box::new(StmtLet { name, value })))
}

/// Parses an expression statement; the separator may be omitted only
/// right before end-of-input or a closing brace, which is what lets a
/// final expression produce a value.
fn parse_stmt_expr(c: &mut Cursor) -> (r: Result<Stmt, Error>)
    requires
        old(c).wf(),
    ensures
        parse_frame(*old(c), *final(c)),
        match r {
            Ok(_) => final(c).position > old(c).position,
            Err(e) => err_from_input(old(c).tokens@, e),
        },
        r matches Ok(s) ==> s matches Stmt::Expr(_),
        ({
            let sp = spec_parse_stmt_expr(old(c).code@, old(c).tokens@, old(c).position as int);
            match r {
                Ok(st) => sp == Some((st.deep(), final(c).position as int)),
                Err(_) => sp is None,
            }
        }),
    decreases c.tokens@.len() - c.position, 4int,
{
    let expr = parse_expr(c)?;
    let semi = c.eat(TokenKind::TOK_SEMI);
    if !semi && !c.at(TokenKind::TOK_EOF) && !c.at(TokenKind::TOK_RBRACE) {
        let current = c.current();
        let e = error(current.span, ErrorKind::MissingSeparator { found: current.kind });
        proof {
            let i = c.position as int;
            assert(0 <= i < c.tokens@.len() && c.tokens@[i].span == e.span);
        }
        return Err(e);
    }
    Ok(Stmt::Expr(Box::new(expr)))
}

/// Parses an expression starting from the lowest binding power.
fn parse_expr(c: &mut Cursor) -> (r: Result<Expr, Error>)
    requires
        old(c).wf(),
    ensures
        parse_frame(*old(c), *final(c)),
        match r {
            Ok(_) => final(c).position > old(c).position,
            Err(e) => err_from_input(old(c).tokens@, e),
        },
        ({
            let sp = spec_parse_expr(old(c).code@, old(c).tokens@, old(c).position as int);
            match r {
                Ok(e) => sp == Some((e.deep(), final(c).position as int)),
                Err(_) => sp is None,
            }
        }),
    decreases c.tokens@.len() - c.position, 3int,
{
    parse_expr_bp(c, 0)
}

/// Precedence climbing: parses one operand, then folds infix operators of
/// binding power at least `min_bp` left-associatively, treating a call's
/// argument list as the tightest-binding postfix operator.
#[verifier::loop_isolation(false)]
fn parse_expr_bp(c: &mut Cursor, min_bp: u8) -> (r: Result<Expr, Error>)
    requires
        old(c).wf(),
    ensures
        parse_frame(*old(c), *final(c)),
        match r {
            Ok(_) => final(c).position > old(c).position,
            Err(e) => err_from_input(old(c).tokens@, e),
        },
        ({
            let sp = spec_parse_expr_bp(
                old(c).code@,
                old(c).tokens@,
                min_bp,
                old(c).position as int,
            );
            match r {
                Ok(e) => sp == Some((e.deep(), final(c).position as int)),
                Err(_) => sp is None,
            }
        }),
    decreases c.tokens@.len() - c.position, 2int,
{
    let ghost toks0 = c.tokens@;
    let ghost code0 = c.code@;
    let ghost pos0 = c.position;
    let mut lhs = parse_primary(c)?;
    loop
        invariant
            c.wf(),
            c.tokens@ == toks0,
            c.code@ == code0,
            c.position > pos0,
            spec_parse_expr_bp(code0, toks0, min_bp, pos0 as int) == spec_bp_loop(
                code0,
                toks0,
                min_bp,
                lhs.deep(),
                c.position as int,
            ),
        decreases c.tokens@.len() - c.position,
    {
        let op_kind = c.kind();
        let bp = match binding_power(&op_kind) {
            Some(bp) => bp,
            None => {
                return Ok(lhs);
            },
        };
        if bp < min_bp {
            return Ok(lhs);
        }
        if op_kind == TokenKind::TOK_LPAREN {
            let args = parse_arg_list(c)?;
            lhs = Expr::Call(Box::new(ExprCall { args, callee: lhs }));
        } else {
            match token_binary_op(op_kind) {
                Some(op) => {
                    c.advance();
                    let rhs = parse_expr_bp(c, bp + 1)?;
                    lhs = Expr::Binary(Box::new(ExprBinary { lhs, op, rhs }));
                },
                None => {
                    return Ok(lhs);
                },
            }
        }
    }
}

/// Parses a call's parenthesized, comma-separated argument expressions.
#[verifier::loop_isolation(false)]
fn parse_arg_list(c: &mut Cursor) -> (r: Result<Vec<Expr>, Error>)
    requires
        old(c).wf(),
    ensures
        parse_frame(*old(c), *final(c)),
        match r {
            Ok(_) => final(c).position > old(c).position,
            Err(e) => err_from_input(old(c).tokens@, e),
        },
        ({
            let sp = spec_parse_arg_list(old(c).code@, old(c).tokens@, old(c).position as int);
            match r {
                Ok(args) => sp == Some((deep_exprs(args@), final(c).position as int)),
                Err(_) => sp is None,
            }
        }),
    decreases c.tokens@.len() - c.position, 6int,
{
    let ghost toks0 = c.tokens@;
    let ghost code0 = c.code@;
    let ghost pos0 = c.position;
    let mut args: Vec<Expr> = Vec::new();
    c.must(TokenKind::TOK_LPAREN)?;
    proof {
        assert(deep_exprs(args@) =~= Seq::<crate::ast::ExprV>::empty());
    }
    while !c.at(TokenKind::TOK_RPAREN)
        invariant
            c.wf(),
            c.tokens@ == toks0,
            c.code@ == code0,
            c.position > pos0,
            spec_parse_arg_list(code0, toks0, pos0 as int) == spec_arg_loop(
                code0,
                toks0,
                deep_exprs(args@),
                c.position as int,
            ),
        decreases c.tokens@.len() - c.position,
    {
        let ghost args_pre = args@;
        args.push(parse_expr(c)?);
        proof {
            lemma_deep_exprs_push(args_pre, args@[args@.len() - 1]);
            assert(args@ =~= args_pre.push(args@[args@.len() - 1]));
        }
        if !c.eat(TokenKind::COMMA) {
            let closing = c.must(TokenKind::TOK_RPAREN);
            return match closing {
                Ok(_) => Ok(args),
                Err(e) => Err(e),
            };
        }
    }
    c.must(TokenKind::TOK_RPAREN)?;
    Ok(args)
}

/// Parses a primary expression: a literal, an identifier, a parenthesized
/// sub-expression, a block expression, an `if` expression, or a prefix
/// unary operator applied at the unary binding power.
fn parse_primary(c: &mut Cursor) -> (r: Result<Expr, Error>)
    requires
        old(c).wf(),
    ensures
        parse_frame(*old(c), *final(c)),
        match r {
            Ok(_) => final(c).position > old(c).position,
            Err(e) => err_from_input(old(c).tokens@, e),
        },
        ({
            let t = old(c).tokens@[old(c).position as int];
            let s = old(c).code@.subrange(t.span.start as int, t.span.end as int);
            &&& t.kind == TokenKind::LIT_INT ==> match r {
                Ok(e) => e matches Expr::Int(i) && i.value == digits_val(s) && digits_val(s)
                    <= i64::MAX,
                Err(e) => e.kind == ErrorKind::IntLitOverflow && digits_val(s) > i64::MAX,
            }
            &&& t.kind == TokenKind::LIT_IDENT && r is Ok ==> (r->Ok_0 matches Expr::Identifier(x)
                && x.name@ == chars_of(s))
            &&& t.kind == TokenKind::LIT_STR ==> (r matches Ok(e) && (e matches Expr::Str(v) && {
                let lo = trimmed_lo(old(c).code@, t.span.start as int, t.span.end as int);
                let hi = trimmed_hi(old(c).code@, lo, t.span.end as int);
                v.value@ == decoded_chars(old(c).code@.subrange(lo, hi))
            }))
        }),
        ({
            let sp = spec_parse_primary(old(c).code@, old(c).tokens@, old(c).position as int);
            match r {
                Ok(e) => sp == Some((e.deep(), final(c).position as int)),
                Err(_) => sp is None,
            }
        }),
    decreases c.tokens@.len() - c.position, 1int,
{
    let token = c.current();
    match token.kind {
        TokenKind::LIT_INT => {
            proof {
                assert(lexeme_matches(c.code@, token));
                let s = c.code@.subrange(token.span.start as int, token.span.end as int);
                assert forall|j: int| token.span.start <= j < token.span.end implies is_digit(
                    c.code@[j],
                ) by {
                    assert(is_digit(s[j - token.span.start]));
                }
            }
            c.advance();
            match parse_int_value(c.code, token.span.start(), token.span.end()) {
                Some(value) => Ok(Expr::Int(Box::new(ExprInt { value }))),
                None => {
                    let e = error(token.span, ErrorKind::IntLitOverflow);
                    proof {
                        let i = old(c).position as int;
                        assert(0 <= i < c.tokens@.len() && c.tokens@[i].span == e.span);
                    }
                    Err(e)
                },
            }
        },
        TokenKind::LIT_STR => {
            c.advance();
            let value = trimmed_string(c, token.span.start(), token.span.end());
            Ok(Expr::Str(Box::new(ExprStr { value })))
        },
        TokenKind::LIT_IDENT => {
            let name = parse_identifier(c)?;
            Ok(Expr::Identifier(Box::new(ExprIdent { name })))
        },
        TokenKind::TOK_LPAREN => {
            c.must(TokenKind::TOK_LPAREN)?;
            let expr = parse_expr(c)?;
            c.must(TokenKind::TOK_RPAREN)?;
            Ok(expr)
        },
        TokenKind::TOK_LBRACE => {
            let block = parse_block(c)?;
            Ok(Expr::Block(Box::new(block)))
        },
        TokenKind::KW_IF => parse_expr_if(c),
        TokenKind::OP_MINUS => {
            c.advance();
            let rhs = parse_expr_bp(c, 7)?;
            Ok(Expr::Unary(Box::new(ExprUnary { rhs, op: UnaryOp::Minus })))
        },
        TokenKind::OP_BANG => {
            c.advance();
            let rhs = parse_expr_bp(c, 7)?;
            Ok(Expr::Unary(Box::new(ExprUnary { rhs, op: UnaryOp::Not })))
        },
        _ => {
            let e = error(token.span, ErrorKind::UnexpectedPrimary { found: token.kind });
            proof {
                let i = c.position as int;
                assert(0 <= i < c.tokens@.len() && c.tokens@[i].span == e.span);
            }
            Err(e)
        },
    }
}

/// The offset of the first byte in `src[lo..hi]` past the run of leading
/// quote bytes.
pub open spec fn trimmed_lo(src: Seq<u8>, lo: int, hi: int) -> int
    decreases hi - lo,
{
    if lo < hi && src[lo] == 34 {
        trimmed_lo(src, lo + 1, hi)
    } else {
        lo
    }
}

/// The offset one past the last byte in `src[lo..hi]` before the run of
/// trailing quote bytes.
pub open spec fn trimmed_hi(src: Seq<u8>, lo: int, hi: int) -> int
    decreases hi - lo,
{
    if lo < hi && src[hi - 1] == 34 {
        trimmed_hi(src, lo, hi - 1)
    } else {
        hi
    }
}

/// The text of a string literal's span with every leading and trailing
/// quote byte removed, the way the evaluated string value is produced.
fn trimmed_string(c: &Cursor, start: usize, end: usize) -> (r: String)
    requires
        c.wf(),
        start <= end,
        end <= c.code@.len(),
    ensures
        ({
            let lo = trimmed_lo(c.code@, start as int, end as int);
            let hi = trimmed_hi(c.code@, lo, end as int);
            &&& r@ == decoded_chars(c.code@.subrange(lo, hi))
            &&& (forall|i: int| lo <= i < hi ==> c.code@[i] < 128) ==> r@ == chars_of(
                c.code@.subrange(lo, hi),
            )
        }),
{
    let mut lo = start;
    while lo < end && c.code[lo] == 34
        invariant
            start <= lo <= end,
            end <= c.code@.len(),
            trimmed_lo(c.code@, start as int, end as int) == trimmed_lo(c.code@, lo as int, end as int),
        decreases end - lo,
    {
        lo = lo + 1;
    }
    let mut hi = end;
    while hi > lo && c.code[hi - 1] == 34
        invariant
            lo <= hi <= end,
            end <= c.code@.len(),
            trimmed_hi(c.code@, lo as int, end as int) == trimmed_hi(c.code@, lo as int, hi as int),
        decreases hi - lo,
    {
        hi = hi - 1;
    }
    c.text(lo, hi)
}

/// Parses `if cond { body }`, any number of `else if` branches, and an
/// optional final bare `else { body }`.
#[verifier::loop_isolation(false)]
fn parse_expr_if(c: &mut Cursor) -> (r: Result<Expr, Error>)
    requires
        old(c).wf(),
    ensures
        parse_frame(*old(c), *final(c)),
        match r {
            Ok(_) => final(c).position > old(c).position,
            Err(e) => err_from_input(old(c).tokens@, e),
        },
        ({
            let sp = spec_parse_expr_if(old(c).code@, old(c).tokens@, old(c).position as int);
            match r {
                Ok(e) => sp == Some((e.deep(), final(c).position as int)),
                Err(_) => sp is None,
            }
        }),
    decreases c.tokens@.len() - c.position, 0int,
{
    let ghost toks0 = c.tokens@;
    let ghost code0 = c.code@;
    let ghost pos0 = c.position;
    c.must(TokenKind::KW_IF)?;
    let cond = parse_expr(c)?;
    let body = parse_block(c)?;
    let mut branches: Vec<IfBranch> = Vec::new();
    branches.push(IfBranch { cond, body });
    proof {
        lemma_deep_branches_push(Seq::empty(), branches@[0]);
        assert(branches@ =~= Seq::empty().push(branches@[0]));
        assert(deep_branches(Seq::empty()) =~= Seq::<BranchV>::empty());
        assert(deep_branches(branches@) =~= seq![branches@[0].deep()]);
    }
    loop
        invariant
            c.wf(),
            c.tokens@ == toks0,
            c.code@ == code0,
            c.position > pos0,
            ({
                let sp = spec_parse_expr_if(code0, toks0, pos0 as int);
                sp == match spec_if_loop(code0, toks0, deep_branches(branches@), c.position as int) {
                    None => None,
                    Some((bs, els, p)) => Some((crate::ast::ExprV::If { branches: bs, els }, p)),
                }
            }),
        decreases c.tokens@.len() - c.position,
    {
        if !c.eat(TokenKind::KW_ELSE) {
            return Ok(Expr::If(Box::new(ExprIf { branches, tail: None })));
        }
        if c.eat(TokenKind::KW_IF) {
            let cond2 = parse_expr(c)?;
            let body2 = parse_block(c)?;
            let ghost branches_pre = branches@;
            branches.push(IfBranch { cond: cond2, body: body2 });
            proof {
                lemma_deep_branches_push(branches_pre, branches@[branches@.len() - 1]);
                assert(branches@ =~= branches_pre.push(branches@[branches@.len() - 1]));
            }
        } else {
            let else_body = parse_block(c)?;
            return Ok(Expr::If(Box::new(ExprIf { branches, tail: Some(else_body) })));
        }
    }
}

} // verus!
