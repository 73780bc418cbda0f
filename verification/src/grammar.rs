use vstd::prelude::*;

use crate::ast::{BlockV, BranchV, ExprV, ProgramV, StmtV};
use crate::cursor::{chars_of, decoded_chars};
use crate::lexer::{Token, TokenKind};
use crate::parser::{digits_val, spec_binding_power, spec_token_binary_op, trimmed_hi, trimmed_lo};

verus! {

// The grammar as one specification-level parser. Each function takes the
// source bytes, the token stream and a position, and yields the parsed
// shape together with the position one past it, or nothing when the
// tokens do not match. The executable parser is proved to return exactly
// what these functions say, success and failure alike.

/// Positions never move backwards: a sub-parse that ostensibly stood
/// still is pushed one token forward, which keeps every recursion well
/// founded. On well-formed token streams the case never arises.
pub open spec fn bump(p: int, lo: int) -> int {
    if p < lo {
        lo
    } else {
        p
    }
}

/// The measure every grammar function shrinks: the tokens not yet read.
pub open spec fn rem(toks: Seq<Token>, pos: int) -> int {
    if 0 <= pos <= toks.len() {
        toks.len() - pos
    } else {
        0
    }
}

/// The characters under a token's span.
pub open spec fn token_text(code: Seq<u8>, t: Token) -> Seq<char> {
    chars_of(code.subrange(t.span.start as int, t.span.end as int))
}

/// The implicit-return rule: without a trailing separator, a final
/// expression statement becomes the tail value.
pub open spec fn spec_promote(ss: Seq<StmtV>, trailing: bool) -> (Seq<StmtV>, Option<ExprV>) {
    if !trailing && ss.len() > 0 && (ss.last() matches StmtV::Expr(_)) {
        (
            ss.drop_last(),
            match ss.last() {
                StmtV::Expr(e) => Some(e),
                _ => None,
            },
        )
    } else {
        (ss, None)
    }
}

/// An identifier: one `LIT_IDENT` token, spelling its name.
pub open spec fn spec_parse_identifier(code: Seq<u8>, toks: Seq<Token>, pos: int) -> Option<
    (Seq<char>, int),
> {
    if 0 <= pos < toks.len() && toks[pos].kind == TokenKind::LIT_IDENT {
        Some((token_text(code, toks[pos]), pos + 1))
    } else {
        None
    }
}

/// The comma-separated names of a parameter list, after the opening
/// parenthesis; a trailing comma before the `)` is allowed.
pub open spec fn spec_param_loop(
    code: Seq<u8>,
    toks: Seq<Token>,
    acc: Seq<Seq<char>>,
    pos: int,
) -> Option<(Seq<Seq<char>>, int)>
    decreases rem(toks, pos), 1int,
{
    if !(0 <= pos < toks.len()) {
        None
    } else if toks[pos].kind == TokenKind::TOK_RPAREN {
        Some((acc, pos + 1))
    } else {
        match spec_parse_identifier(code, toks, pos) {
            None => None,
            Some((name, p1)) => {
                let p1 = bump(p1, pos + 1);
                if 0 <= p1 < toks.len() && toks[p1].kind == TokenKind::COMMA {
                    spec_param_loop(code, toks, acc.push(name), p1 + 1)
                } else if 0 <= p1 < toks.len() && toks[p1].kind == TokenKind::TOK_RPAREN {
                    Some((acc.push(name), p1 + 1))
                } else {
                    None
                }
            },
        }
    }
}

/// A parenthesized parameter list.
pub open spec fn spec_parse_param_list(code: Seq<u8>, toks: Seq<Token>, pos: int) -> Option<
    (Seq<Seq<char>>, int),
> {
    if 0 <= pos < toks.len() && toks[pos].kind == TokenKind::TOK_LPAREN {
        spec_param_loop(code, toks, Seq::empty(), pos + 1)
    } else {
        None
    }
}

/// A primary expression: a literal, an identifier, a parenthesized
/// sub-expression (no node of its own), a block, an `if`, or a prefix
/// unary operator whose operand binds at power 7.
pub open spec fn spec_parse_primary(code: Seq<u8>, toks: Seq<Token>, pos: int) -> Option<
    (ExprV, int),
>
    decreases rem(toks, pos), 2int,
{
    if !(0 <= pos < toks.len()) {
        None
    } else {
        let t = toks[pos];
        match t.kind {
            TokenKind::LIT_INT => {
                let s = code.subrange(t.span.start as int, t.span.end as int);
                if digits_val(s) <= i64::MAX {
                    Some((ExprV::Int(digits_val(s) as i64), pos + 1))
                } else {
                    None
                }
            },
            TokenKind::LIT_STR => {
                let lo = trimmed_lo(code, t.span.start as int, t.span.end as int);
                let hi = trimmed_hi(code, lo, t.span.end as int);
                Some((ExprV::Str(decoded_chars(code.subrange(lo, hi))), pos + 1))
            },
            TokenKind::LIT_IDENT => Some((ExprV::Ident(token_text(code, t)), pos + 1)),
            TokenKind::TOK_LPAREN => match spec_parse_expr(code, toks, pos + 1) {
                None => None,
                Some((e, p1)) => {
                    let p1 = bump(p1, pos + 2);
                    if 0 <= p1 < toks.len() && toks[p1].kind == TokenKind::TOK_RPAREN {
                        Some((e, p1 + 1))
                    } else {
                        None
                    }
                },
            },
            TokenKind::TOK_LBRACE => match spec_parse_block(code, toks, pos) {
                None => None,
                Some((b, p1)) => Some((ExprV::Block(Box::new(b)), p1)),
            },
            TokenKind::KW_IF => spec_parse_expr_if(code, toks, pos),
            TokenKind::OP_MINUS => match spec_parse_expr_bp(code, toks, 7u8, pos + 1) {
                None => None,
                Some((e, p1)) => Some(
                    (ExprV::Unary { op: crate::ast::UnaryOp::Minus, rhs: Box::new(e) }, p1),
                ),
            },
            TokenKind::OP_BANG => match spec_parse_expr_bp(code, toks, 7u8, pos + 1) {
                None => None,
                Some((e, p1)) => Some(
                    (ExprV::Unary { op: crate::ast::UnaryOp::Not, rhs: Box::new(e) }, p1),
                ),
            },
            _ => None,
        }
    }
}

/// Precedence climbing after a parsed operand: operators of binding
/// power at least `min_bp` fold left-associatively (the right side binds
/// at `bp + 1`), and an argument list applies the operand as a call.
pub open spec fn spec_bp_loop(
    code: Seq<u8>,
    toks: Seq<Token>,
    min_bp: u8,
    lhs: ExprV,
    pos: int,
) -> Option<(ExprV, int)>
    decreases rem(toks, pos), 9int,
{
    if !(0 <= pos < toks.len()) {
        Some((lhs, pos))
    } else {
        let k = toks[pos].kind;
        match spec_binding_power(k) {
            None => Some((lhs, pos)),
            Some(bp) => if bp < min_bp {
                Some((lhs, pos))
            } else if k == TokenKind::TOK_LPAREN {
                match spec_parse_arg_list(code, toks, pos) {
                    None => None,
                    Some((args, p1)) => spec_bp_loop(
                        code,
                        toks,
                        min_bp,
                        ExprV::Call { callee: Box::new(lhs), args },
                        bump(p1, pos + 1),
                    ),
                }
            } else {
                match spec_token_binary_op(k) {
                    Some(op) => match spec_parse_expr_bp(code, toks, (bp + 1) as u8, pos + 1) {
                        None => None,
                        Some((rhs, p1)) => spec_bp_loop(
                            code,
                            toks,
                            min_bp,
                            ExprV::Binary { op, lhs: Box::new(lhs), rhs: Box::new(rhs) },
                            bump(p1, pos + 2),
                        ),
                    },
                    None => Some((lhs, pos)),
                }
            },
        }
    }
}

/// An expression at a minimum binding power: an operand, then the
/// operator folding above.
pub open spec fn spec_parse_expr_bp(code: Seq<u8>, toks: Seq<Token>, min_bp: u8, pos: int) -> Option<
    (ExprV, int),
>
    decreases rem(toks, pos), 3int,
{
    if !(0 <= pos < toks.len()) {
        None
    } else {
        match spec_parse_primary(code, toks, pos) {
            None => None,
            Some((lhs, p1)) => spec_bp_loop(code, toks, min_bp, lhs, bump(p1, pos + 1)),
        }
    }
}

/// A whole expression: binding power zero upwards.
pub open spec fn spec_parse_expr(code: Seq<u8>, toks: Seq<Token>, pos: int) -> Option<(ExprV, int)>
    decreases rem(toks, pos), 4int,
{
    spec_parse_expr_bp(code, toks, 0u8, pos)
}

/// The comma-separated argument expressions after a call's opening
/// parenthesis; a trailing comma before the `)` is allowed.
pub open spec fn spec_arg_loop(code: Seq<u8>, toks: Seq<Token>, acc: Seq<ExprV>, pos: int) -> Option<
    (Seq<ExprV>, int),
>
    decreases rem(toks, pos), 9int,
{
    if !(0 <= pos < toks.len()) {
        None
    } else if toks[pos].kind == TokenKind::TOK_RPAREN {
        Some((acc, pos + 1))
    } else {
        match spec_parse_expr(code, toks, pos) {
            None => None,
            Some((e, p1)) => {
                let p1 = bump(p1, pos + 1);
                if 0 <= p1 < toks.len() && toks[p1].kind == TokenKind::COMMA {
                    spec_arg_loop(code, toks, acc.push(e), p1 + 1)
                } else if 0 <= p1 < toks.len() && toks[p1].kind == TokenKind::TOK_RPAREN {
                    Some((acc.push(e), p1 + 1))
                } else {
                    None
                }
            },
        }
    }
}

/// A parenthesized argument list.
pub open spec fn spec_parse_arg_list(code: Seq<u8>, toks: Seq<Token>, pos: int) -> Option<
    (Seq<ExprV>, int),
>
    decreases rem(toks, pos), 0int,
{
    if 0 <= pos < toks.len() && toks[pos].kind == TokenKind::TOK_LPAREN {
        spec_arg_loop(code, toks, Seq::empty(), pos + 1)
    } else {
        None
    }
}

/// The `else if` chain after the first branch of an `if`, ending with an
/// optional final bare `else { block }`.
pub open spec fn spec_if_loop(
    code: Seq<u8>,
    toks: Seq<Token>,
    branches: Seq<BranchV>,
    pos: int,
) -> Option<(Seq<BranchV>, Option<Box<BlockV>>, int)>
    decreases rem(toks, pos), 0int,
{
    if !(0 <= pos < toks.len()) {
        Some((branches, None, pos))
    } else if toks[pos].kind != TokenKind::KW_ELSE {
        Some((branches, None, pos))
    } else {
        let p0 = pos + 1;
        if 0 <= p0 < toks.len() && toks[p0].kind == TokenKind::KW_IF {
            match spec_parse_expr(code, toks, p0 + 1) {
                None => None,
                Some((cond, p1)) => {
                    let p1 = bump(p1, p0 + 2);
                    match spec_parse_block(code, toks, p1) {
                        None => None,
                        Some((body, p2)) => spec_if_loop(
                            code,
                            toks,
                            branches.push(BranchV { cond, body }),
                            bump(p2, p1 + 1),
                        ),
                    }
                },
            }
        } else {
            match spec_parse_block(code, toks, p0) {
                None => None,
                Some((b, p1)) => Some((branches, Some(Box::new(b)), p1)),
            }
        }
    }
}

/// An `if` expression: the mandatory first branch, the `else if` chain,
/// the optional final `else`; the condition needs no parentheses.
pub open spec fn spec_parse_expr_if(code: Seq<u8>, toks: Seq<Token>, pos: int) -> Option<
    (ExprV, int),
>
    decreases rem(toks, pos), 1int,
{
    if !(0 <= pos < toks.len() && toks[pos].kind == TokenKind::KW_IF) {
        None
    } else {
        match spec_parse_expr(code, toks, pos + 1) {
            None => None,
            Some((cond, p1)) => {
                let p1 = bump(p1, pos + 2);
                match spec_parse_block(code, toks, p1) {
                    None => None,
                    Some((body, p2)) => {
                        let p2 = bump(p2, p1 + 1);
                        match spec_if_loop(code, toks, seq![BranchV { cond, body }], p2) {
                            None => None,
                            Some((branches, els, p3)) => Some((ExprV::If { branches, els }, p3)),
                        }
                    },
                }
            },
        }
    }
}

/// Statements until the terminator token, which is not consumed.
pub open spec fn spec_parse_stmts(
    code: Seq<u8>,
    toks: Seq<Token>,
    term: TokenKind,
    acc: Seq<StmtV>,
    pos: int,
) -> Option<(Seq<StmtV>, int)>
    decreases rem(toks, pos), 7int,
{
    if !(0 <= pos < toks.len()) {
        None
    } else if toks[pos].kind == term {
        Some((acc, pos))
    } else {
        match spec_parse_stmt(code, toks, pos) {
            None => None,
            Some((s, p1)) => spec_parse_stmts(code, toks, term, acc.push(s), bump(p1, pos + 1)),
        }
    }
}

/// A statement, dispatched on its leading token.
pub open spec fn spec_parse_stmt(code: Seq<u8>, toks: Seq<Token>, pos: int) -> Option<(StmtV, int)>
    decreases rem(toks, pos), 6int,
{
    if !(0 <= pos < toks.len()) {
        None
    } else if toks[pos].kind == TokenKind::KW_FN {
        spec_parse_stmt_fn(code, toks, pos)
    } else if toks[pos].kind == TokenKind::KW_LET {
        spec_parse_stmt_let(code, toks, pos)
    } else {
        spec_parse_stmt_expr(code, toks, pos)
    }
}

/// `fn name(params) { body }`.
pub open spec fn spec_parse_stmt_fn(code: Seq<u8>, toks: Seq<Token>, pos: int) -> Option<
    (StmtV, int),
>
    decreases rem(toks, pos), 5int,
{
    if !(0 <= pos < toks.len() && toks[pos].kind == TokenKind::KW_FN) {
        None
    } else {
        match spec_parse_identifier(code, toks, pos + 1) {
            None => None,
            Some((name, p1)) => {
                let p1 = bump(p1, pos + 2);
                match spec_parse_param_list(code, toks, p1) {
                    None => None,
                    Some((params, p2)) => {
                        let p2 = bump(p2, p1 + 1);
                        match spec_parse_block(code, toks, p2) {
                            None => None,
                            Some((body, p3)) => Some((StmtV::Fn { name, params, body }, p3)),
                        }
                    },
                }
            },
        }
    }
}

/// `let name = value ;` with the separator mandatory.
pub open spec fn spec_parse_stmt_let(code: Seq<u8>, toks: Seq<Token>, pos: int) -> Option<
    (StmtV, int),
>
    decreases rem(toks, pos), 5int,
{
    if !(0 <= pos < toks.len() && toks[pos].kind == TokenKind::KW_LET) {
        None
    } else {
        match spec_parse_identifier(code, toks, pos + 1) {
            None => None,
            Some((name, p1)) => {
                let p1 = bump(p1, pos + 2);
                if !(0 <= p1 < toks.len() && toks[p1].kind == TokenKind::OP_EQ) {
                    None
                } else {
                    match spec_parse_expr(code, toks, p1 + 1) {
                        None => None,
                        Some((value, p2)) => {
                            let p2 = bump(p2, p1 + 2);
                            if 0 <= p2 < toks.len() && toks[p2].kind == TokenKind::TOK_SEMI {
                                Some((StmtV::Let { name, value }, p2 + 1))
                            } else {
                                None
                            }
                        },
                    }
                }
            },
        }
    }
}

/// An expression statement: its separator may be omitted only right
/// before end-of-input or a closing brace.
pub open spec fn spec_parse_stmt_expr(code: Seq<u8>, toks: Seq<Token>, pos: int) -> Option<
    (StmtV, int),
>
    decreases rem(toks, pos), 5int,
{
    match spec_parse_expr(code, toks, pos) {
        None => None,
        Some((e, p1)) => {
            let p1 = bump(p1, pos + 1);
            if 0 <= p1 < toks.len() && toks[p1].kind == TokenKind::TOK_SEMI {
                Some((StmtV::Expr(e), p1 + 1))
            } else if 0 <= p1 < toks.len() && (toks[p1].kind == TokenKind::TOK_EOF || toks[p1].kind
                == TokenKind::TOK_RBRACE) {
                Some((StmtV::Expr(e), p1))
            } else {
                None
            }
        },
    }
}

/// `{ statements... tail? }` with the implicit-return rule; the trailing
/// separator is judged by the token right before the closing brace.
pub open spec fn spec_parse_block(code: Seq<u8>, toks: Seq<Token>, pos: int) -> Option<
    (BlockV, int),
>
    decreases rem(toks, pos), 1int,
{
    if !(0 <= pos < toks.len() && toks[pos].kind == TokenKind::TOK_LBRACE) {
        None
    } else {
        match spec_parse_stmts(code, toks, TokenKind::TOK_RBRACE, Seq::empty(), pos + 1) {
            None => None,
            Some((ss, p)) => {
                let trailing = p >= 1 && toks[p - 1].kind == TokenKind::TOK_SEMI;
                let pr = spec_promote(ss, trailing);
                Some((BlockV { body: pr.0, tail: pr.1 }, p + 1))
            },
        }
    }
}

/// A whole program: statements until end-of-input, then the
/// implicit-return rule; the end-of-input token is not consumed.
pub open spec fn spec_parse_program(code: Seq<u8>, toks: Seq<Token>, pos: int) -> Option<
    (ProgramV, int),
>
    decreases rem(toks, pos), 8int,
{
    match spec_parse_stmts(code, toks, TokenKind::TOK_EOF, Seq::empty(), pos) {
        None => None,
        Some((ss, p)) => {
            let trailing = p >= 1 && toks[p - 1].kind == TokenKind::TOK_SEMI;
            let pr = spec_promote(ss, trailing);
            Some((ProgramV { body: pr.0, tail: pr.1 }, p))
        },
    }
}

} // verus!
