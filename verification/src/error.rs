use vstd::prelude::*;

use crate::ast::{BinaryOp, UnaryOp};
use crate::eval::ValueKind;
use crate::lexer::{Token, TokenKind};
use crate::span::Span;

verus! {

/// Everything that can go wrong, split into the parse-time shapes raised
/// while matching tokens and the run-time shapes raised while evaluating.
#[derive(Clone, Debug, PartialEq)]
pub enum ErrorKind {
    /// `expect` saw the wrong token.
    UnexpectedToken { expected: TokenKind, found: TokenKind },
    /// No primary-expression rule matches the current token.
    UnexpectedPrimary { found: TokenKind },
    /// An expression statement ended without `;`, end-of-input or `}`.
    MissingSeparator { found: TokenKind },
    /// An integer literal does not fit in a 64-bit signed integer.
    IntLitOverflow,
    /// A name was resolved through the whole environment chain and missed.
    UndefinedVariable { name: String },
    /// A binary operator was applied to operand kinds it is not defined on.
    UnsupportedOperation { op: BinaryOp, lhs: ValueKind, rhs: ValueKind },
    /// A unary operator was applied to an operand kind it is not defined on.
    InvalidUnaryApplication { op: UnaryOp, operand: ValueKind },
    /// A call passed the wrong number of arguments.
    ArityMismatch { expected: usize, actual: usize },
    /// A call's callee did not evaluate to a function.
    NotCallable { kind: ValueKind },
    /// An integer division had zero as its right operand.
    DivisionByZero,
    /// Evaluation exceeded the call-depth budget it was given.
    OutOfFuel,
}

#[derive(Clone, Debug, PartialEq)]
pub struct Error {
    pub span: Span,
    pub kind: ErrorKind,
}

/// The error's span is the span of a token actually present in the given
/// stream: errors raised while parsing always point at a real token.
pub open spec fn err_from_input(toks: Seq<Token>, e: Error) -> bool {
    exists|i: int| 0 <= i < toks.len() && toks[i].span == e.span
}

/// Builds an `Error` from the offending span and the error's shape.
pub fn error(span: Span, kind: ErrorKind) -> (e: Error)
    ensures
        e.span == span,
        e.kind == kind,
{
    Error { span, kind }
}

} // verus!
