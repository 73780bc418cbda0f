//! A small expression-oriented scripting language: a tokenizer feeds a
//! recursive-descent parser that builds an abstract syntax tree, and a
//! tree-walking evaluator executes the tree against a chain of lexically
//! scoped environments. The meaning of every construct is written down as
//! a specification-level interpreter in `semantics`, and the executable
//! parser and evaluator are proved against it.

pub mod ast;
pub mod cursor;
pub mod error;
pub mod eval;
pub mod grammar;
pub mod lexer;
pub mod parser;
pub mod semantics;
pub mod span;

use vstd::prelude::*;

use crate::ast::Program;
use crate::cursor::Cursor;
use crate::error::Error;
use crate::lexer::lex;
use crate::parser::parse_program;

verus! {

/// Tokenizes and parses source bytes into a program: the result is
/// exactly what the grammar says of the source's token sequence, success
/// and failure alike, and a parse error's span always lies within the
/// source text.
pub fn parse(code: &[u8]) -> (r: Result<Program, Error>)
    requires
        code@.len() <= u32::MAX,
    ensures
        ({
            let sp = crate::grammar::spec_parse_program(code@, crate::lexer::spec_lex(code@), 0);
            match r {
                Ok(p) => sp matches Some(pp) && pp.0 == p.deep(),
                Err(_) => sp is None,
            }
        }),
        r matches Err(e) ==> e.span.start <= e.span.end && e.span.end <= code@.len(),
{
    let tokens = lex(code);
    let mut cursor = Cursor { code, position: 0, tokens };
    let r = parse_program(&mut cursor);
    proof {
        match &r {
            Err(e) => {
                let i = choose|i: int|
                    0 <= i < cursor.tokens@.len() && cursor.tokens@[i].span == e.span;
                assert(cursor.tokens@[i].span.start <= cursor.tokens@[i].span.end);
            },
            _ => {},
        }
    }
    r
}

} // verus!
