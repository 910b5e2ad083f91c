use vstd::prelude::*;
use crate::token_kind::TokenKind;

verus! {

/// A token that owns its characters, so that it can outlive the buffer it
/// was cut from.
#[derive(Debug, Clone, PartialEq, PartialOrd)]
pub struct FatToken {
    pub content: Vec<char>,
    pub kind: TokenKind,
}

} // verus!
