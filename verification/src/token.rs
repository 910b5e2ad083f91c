use vstd::prelude::*;
use vstd::slice::slice_to_vec;
use crate::fat_token::FatToken;
use crate::span::Span;
use crate::token_kind::TokenKind;

verus! {

/// A classified stretch of a character buffer: where it lies and what it is.
#[derive(Debug, Clone, Copy, PartialEq, Eq, Structural)]
pub struct Token {
    pub span: Span,
    pub kind: TokenKind,
}

impl Token {
    pub fn new(span: Span, kind: TokenKind) -> (token: Token)
        ensures
            token.span == span,
            token.kind == kind,
    {
        Token { span, kind }
    }

    /// Copies the token's characters out of `source` into an owned token.
    pub fn to_fat(&self, source: &[char]) -> (fat: FatToken)
        requires
            self.span.fits(source@.len()),
        ensures
            fat.content@ == self.span.content(source@),
            fat.kind == self.kind,
    {
        let content = slice_to_vec(self.span.get_content(source));
        FatToken { content, kind: self.kind }
    }
}

impl Default for Token {
    fn default() -> (token: Token)
        ensures
            token.span == (Span { start: 0, end: 0 }),
            token.kind == TokenKind::Unlintable,
    {
        Token { span: Span { start: 0, end: 0 }, kind: TokenKind::Unlintable }
    }
}

} // verus!
