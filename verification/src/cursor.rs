use vstd::prelude::*;

use crate::error::{err_from_input, error, Error, ErrorKind};
use crate::lexer::{wf_tokens, Token, TokenKind};

verus! {

/// The characters spelled by a run of ASCII bytes.
pub open spec fn chars_of(bytes: Seq<u8>) -> Seq<char> {
    Seq::new(bytes.len(), |i: int| bytes[i] as char)
}

/// The characters a run of bytes decodes to. The decoding depends on the
/// bytes alone; `decode_string` below says which function it is.
pub uninterp spec fn decoded_chars(bytes: Seq<u8>) -> Seq<char>;

/// Relies on std's String::from_utf8: the result is a function of the
/// bytes alone, and ASCII bytes decode to exactly their own characters.
/// Bytes that are not valid UTF-8 give an empty string.
#[verifier::external_body]
fn decode_string(bytes: Vec<u8>) -> (r: String)
    ensures
        r@ == decoded_chars(bytes@),
        (forall|i: int| 0 <= i < bytes@.len() ==> bytes@[i] < 128) ==> r@ == chars_of(bytes@),
{
    match String::from_utf8(bytes) {
        Ok(s) => s,
        Err(_) => String::new(),
    }
}

/// A read-only forward view over the token stream: the source bytes, the
/// tokens drawn from them, and the index of the token under inspection.
pub struct Cursor<'src> {
    pub code: &'src [u8],
    pub tokens: Vec<Token>,
    pub position: usize,
}

impl<'src> Cursor<'src> {
    /// The cursor can serve the parser: the stream is well formed and the
    /// position rests on a token.
    pub open spec fn wf(&self) -> bool {
        &&& wf_tokens(self.code@, self.tokens@)
        &&& self.position < self.tokens@.len()
        &&& self.code@.len() <= u32::MAX
    }

    /// Moves one token forward; at the end-of-input token it stays put.
    pub fn advance(&mut self)
        requires
            old(self).wf(),
        ensures
            final(self).wf(),
            final(self).code@ == old(self).code@,
            final(self).tokens@ == old(self).tokens@,
            final(self).position == if old(self).position + 1 < old(self).tokens@.len() {
                old(self).position + 1
            } else {
                old(self).position as int
            },
    {
        if self.position >= self.tokens.len() - 1 {
            return ;
        }
        self.position = self.position + 1;
    }

    /// The source text in a half-open byte range, as a string.
    pub fn text(&self, start: usize, end: usize) -> (r: String)
        requires
            self.wf(),
            start <= end,
            end <= self.code@.len(),
        ensures
            r@ == decoded_chars(self.code@.subrange(start as int, end as int)),
            (forall|i: int| start <= i < end ==> self.code@[i] < 128) ==> r@ == chars_of(
                self.code@.subrange(start as int, end as int),
            ),
    {
        let mut bytes: Vec<u8> = Vec::new();
        let mut i = start;
        while i < end
            invariant
                start <= i <= end,
                end <= self.code@.len(),
                bytes@ == self.code@.subrange(start as int, i as int),
            decreases end - i,
        {
            bytes.push(self.code[i]);
            proof {
                assert(bytes@ =~= self.code@.subrange(start as int, i + 1));
            }
            i = i + 1;
        }
        proof {
            if forall|j: int| start <= j < end ==> self.code@[j] < 128 {
                assert(forall|j: int| 0 <= j < bytes@.len() ==> bytes@[j] < 128);
            }
        }
        decode_string(bytes)
    }

    /// The source text under a token's span, as a string.
    pub fn lexeme(&self, token: Token) -> (r: String)
        requires
            self.wf(),
            token.span.start <= token.span.end,
            token.span.end <= self.code@.len(),
        ensures
            r@ == decoded_chars(
                self.code@.subrange(token.span.start as int, token.span.end as int),
            ),
            (forall|i: int|
                token.span.start <= i < token.span.end ==> self.code@[i] < 128) ==> r@ == chars_of(
                self.code@.subrange(token.span.start as int, token.span.end as int),
            ),
    {
        self.text(token.span.start(), token.span.end())
    }

    /// The token under inspection.
    pub fn current(&self) -> (t: Token)
        requires
            self.wf(),
        ensures
            t == self.tokens@[self.position as int],
    {
        self.tokens[self.position]
    }

    /// The most recently consumed token.
    pub fn previous(&self) -> (t: Token)
        requires
            self.wf(),
            self.position >= 1,
        ensures
            t == self.tokens@[self.position - 1],
    {
        self.tokens[self.position - 1]
    }

    /// The kind of the token under inspection.
    pub fn kind(&self) -> (k: TokenKind)
        requires
            self.wf(),
        ensures
            k == self.tokens@[self.position as int].kind,
    {
        self.current().kind
    }

    /// True iff the token under inspection has the given kind.
    pub fn at(&self, kind: TokenKind) -> (r: bool)
        requires
            self.wf(),
        ensures
            r == (self.tokens@[self.position as int].kind == kind),
    {
        self.kind() == kind
    }

    /// True iff a token has been consumed and the last one consumed had
    /// the given kind; used to detect trailing separators.
    pub fn was(&self, kind: TokenKind) -> (r: bool)
        requires
            self.wf(),
        ensures
            r == (self.position >= 1 && self.tokens@[self.position - 1].kind == kind),
    {
        self.position >= 1 && self.previous().kind == kind
    }

    /// Consumes the token and reports true iff it has the given kind;
    /// otherwise the cursor is untouched.
    pub fn eat(&mut self, kind: TokenKind) -> (r: bool)
        requires
            old(self).wf(),
        ensures
            final(self).wf(),
            final(self).code@ == old(self).code@,
            final(self).tokens@ == old(self).tokens@,
            r == (old(self).tokens@[old(self).position as int].kind == kind),
            final(self).position == if r && old(self).position + 1 < old(self).tokens@.len() {
                old(self).position + 1
            } else {
                old(self).position as int
            },
    {
        if self.at(kind) {
            self.advance();
            return true;
        }
        false
    }

    /// Consumes and returns the token when it has the given kind; otherwise
    /// fails with a parse error carrying the expected kind, the kind found,
    /// and the offending token's span.
    pub fn must(&mut self, kind: TokenKind) -> (r: Result<Token, Error>)
        requires
            old(self).wf(),
        ensures
            final(self).wf(),
            final(self).code@ == old(self).code@,
            final(self).tokens@ == old(self).tokens@,
            match r {
                Ok(t) => {
                    &&& old(self).tokens@[old(self).position as int].kind == kind
                    &&& t == old(self).tokens@[old(self).position as int]
                    &&& final(self).position == if old(self).position + 1 < old(self).tokens@.len() {
                        old(self).position + 1
                    } else {
                        old(self).position as int
                    }
                },
                Err(e) => {
                    &&& old(self).tokens@[old(self).position as int].kind != kind
                    &&& final(self).position == old(self).position as int
                    &&& e.span == old(self).tokens@[old(self).position as int].span
                    &&& e.kind == (ErrorKind::UnexpectedToken {
                        expected: kind,
                        found: old(self).tokens@[old(self).position as int].kind,
                    })
                    &&& err_from_input(old(self).tokens@, e)
                },
            },
    {
        let current = self.current();
        if self.eat(kind) {
            Ok(current)
        } else {
            let e = error(
                current.span,
                ErrorKind::UnexpectedToken { expected: kind, found: current.kind },
            );
            proof {
                let i = self.position as int;
                assert(0 <= i < self.tokens@.len() && self.tokens@[i].span == e.span);
            }
            Err(e)
        }
    }
}

} // verus!
