//! Tokens over a shared character buffer, and the queries that classify,
//! search and segment a sequence of them into chunks, sentences and paragraphs.

pub mod span;
pub mod token_kind;
pub mod fat_token;
pub mod token;
pub mod model;
pub mod outside;
pub mod partition;
pub mod token_string_ext;

pub use fat_token::FatToken;
pub use span::Span;
pub use token::Token;
pub use token_kind::{Punctuation, TokenClass, TokenKind, WordMetadata};

pub use token_string_ext::TokenStringExt;
