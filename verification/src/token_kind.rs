use vstd::prelude::*;

verus! {

/// The punctuation marks that the tokenizer tells apart.
#[derive(Debug, Clone, Copy, PartialEq, Eq, PartialOrd, Hash, Structural)]
pub enum Punctuation {
    Period,
    Bang,
    Question,
    Colon,
    Semicolon,
    Comma,
    Quote,
    Apostrophe,
    Hyphen,
    OpenRound,
    CloseRound,
    Ellipsis,
    Pipe,
    At,
    Currency,
    Other,
}

/// What is known about a word beyond its spelling.
#[derive(Debug, Clone, Copy, PartialEq, Eq, PartialOrd, Hash, Structural)]
pub struct WordMetadata {
    pub linking_verb: bool,
    pub conjunction: bool,
    pub likely_homograph: bool,
}

impl WordMetadata {
    pub fn is_linking_verb(&self) -> (r: bool)
        ensures
            r == self.linking_verb,
    {
        self.linking_verb
    }
}

/// The classification of a token.
#[derive(Debug, Clone, Copy, PartialEq, Eq, PartialOrd, Hash, Structural)]
pub enum TokenKind {
    Word(WordMetadata),
    Punctuation(Punctuation),
    Number,
    /// A run of spaces, with its length.
    Space(usize),
    /// A run of line breaks, with its length.
    Newline(usize),
    /// Text that no rule should look at, such as inline code.
    Unlintable,
    ParagraphBreak,
}

/// The classes of kinds by which a token sequence can be queried.
#[derive(Debug, Clone, Copy, PartialEq, Eq, Hash, Structural)]
pub enum TokenClass {
    Word,
    WordLike,
    Conjunction,
    Space,
    Apostrophe,
    Pipe,
    Quote,
    Number,
    At,
    Ellipsis,
    Unlintable,
    SentenceTerminator,
    ParagraphBreak,
    ChunkTerminator,
    Punctuation,
    Currency,
    LikelyHomograph,
}

impl TokenClass {
    /// Whether a token of kind `kind` belongs to this class.
    pub open spec fn holds(self, kind: TokenKind) -> bool {
        match self {
            TokenClass::Word => kind is Word,
            TokenClass::WordLike => kind is Word || kind is Number,
            TokenClass::Conjunction => kind matches TokenKind::Word(meta) && meta.conjunction,
            TokenClass::Space => kind is Space,
            TokenClass::Apostrophe => kind == TokenKind::Punctuation(Punctuation::Apostrophe),
            TokenClass::Pipe => kind == TokenKind::Punctuation(Punctuation::Pipe),
            TokenClass::Quote => kind == TokenKind::Punctuation(Punctuation::Quote),
            TokenClass::Number => kind is Number,
            TokenClass::At => kind == TokenKind::Punctuation(Punctuation::At),
            TokenClass::Ellipsis => kind == TokenKind::Punctuation(Punctuation::Ellipsis),
            TokenClass::Unlintable => kind is Unlintable,
            TokenClass::SentenceTerminator => ends_sentence(kind),
            TokenClass::ParagraphBreak => kind is ParagraphBreak,
            TokenClass::ChunkTerminator => ends_sentence(kind) || kind == TokenKind::Punctuation(
                Punctuation::Comma,
            ) || kind == TokenKind::Punctuation(Punctuation::Quote) || kind
                == TokenKind::Punctuation(Punctuation::Colon),
            TokenClass::Punctuation => kind is Punctuation,
            TokenClass::Currency => kind == TokenKind::Punctuation(Punctuation::Currency),
            TokenClass::LikelyHomograph => kind matches TokenKind::Word(meta)
                && meta.likely_homograph,
        }
    }
}

/// A full stop, an exclamation mark, a question mark or a paragraph break.
pub open spec fn ends_sentence(kind: TokenKind) -> bool {
    kind == TokenKind::Punctuation(Punctuation::Period) || kind == TokenKind::Punctuation(
        Punctuation::Bang,
    ) || kind == TokenKind::Punctuation(Punctuation::Question) || kind is ParagraphBreak
}

/// A run of spaces or of line breaks.
pub open spec fn blank(kind: TokenKind) -> bool {
    kind is Space || kind is Newline
}

/// A word that its metadata marks as a linking verb.
pub open spec fn links(kind: TokenKind) -> bool {
    kind matches TokenKind::Word(meta) && meta.linking_verb
}

impl TokenKind {
    pub fn is_word(&self) -> (r: bool)
        ensures
            r == TokenClass::Word.holds(*self),
    {
        match self {
            TokenKind::Word(_) => true,
            _ => false,
        }
    }

    pub fn is_word_like(&self) -> (r: bool)
        ensures
            r == TokenClass::WordLike.holds(*self),
    {
        match self {
            TokenKind::Word(_) => true,
            TokenKind::Number => true,
            _ => false,
        }
    }

    pub fn is_conjunction(&self) -> (r: bool)
        ensures
            r == TokenClass::Conjunction.holds(*self),
    {
        match self {
            TokenKind::Word(meta) => meta.conjunction,
            _ => false,
        }
    }

    pub fn is_space(&self) -> (r: bool)
        ensures
            r == TokenClass::Space.holds(*self),
    {
        match self {
            TokenKind::Space(_) => true,
            _ => false,
        }
    }

    pub fn is_apostrophe(&self) -> (r: bool)
        ensures
            r == TokenClass::Apostrophe.holds(*self),
    {
        match self {
            TokenKind::Punctuation(Punctuation::Apostrophe) => true,
            _ => false,
        }
    }

    pub fn is_pipe(&self) -> (r: bool)
        ensures
            r == TokenClass::Pipe.holds(*self),
    {
        match self {
            TokenKind::Punctuation(Punctuation::Pipe) => true,
            _ => false,
        }
    }

    pub fn is_quote(&self) -> (r: bool)
        ensures
            r == TokenClass::Quote.holds(*self),
    {
        match self {
            TokenKind::Punctuation(Punctuation::Quote) => true,
            _ => false,
        }
    }

    pub fn is_number(&self) -> (r: bool)
        ensures
            r == TokenClass::Number.holds(*self),
    {
        match self {
            TokenKind::Number => true,
            _ => false,
        }
    }

    pub fn is_at(&self) -> (r: bool)
        ensures
            r == TokenClass::At.holds(*self),
    {
        match self {
            TokenKind::Punctuation(Punctuation::At) => true,
            _ => false,
        }
    }

    pub fn is_ellipsis(&self) -> (r: bool)
        ensures
            r == TokenClass::Ellipsis.holds(*self),
    {
        match self {
            TokenKind::Punctuation(Punctuation::Ellipsis) => true,
            _ => false,
        }
    }

    pub fn is_unlintable(&self) -> (r: bool)
        ensures
            r == TokenClass::Unlintable.holds(*self),
    {
        match self {
            TokenKind::Unlintable => true,
            _ => false,
        }
    }

    pub fn is_sentence_terminator(&self) -> (r: bool)
        ensures
            r == TokenClass::SentenceTerminator.holds(*self),
    {
        match self {
            TokenKind::Punctuation(Punctuation::Period) => true,
            TokenKind::Punctuation(Punctuation::Bang) => true,
            TokenKind::Punctuation(Punctuation::Question) => true,
            TokenKind::ParagraphBreak => true,
            _ => false,
        }
    }

    pub fn is_paragraph_break(&self) -> (r: bool)
        ensures
            r == TokenClass::ParagraphBreak.holds(*self),
    {
        match self {
            TokenKind::ParagraphBreak => true,
            _ => false,
        }
    }

    pub fn is_chunk_terminator(&self) -> (r: bool)
        ensures
            r == TokenClass::ChunkTerminator.holds(*self),
    {
        if self.is_sentence_terminator() {
            return true;
        }
        match self {
            TokenKind::Punctuation(Punctuation::Comma) => true,
            TokenKind::Punctuation(Punctuation::Quote) => true,
            TokenKind::Punctuation(Punctuation::Colon) => true,
            _ => false,
        }
    }

    pub fn is_punctuation(&self) -> (r: bool)
        ensures
            r == TokenClass::Punctuation.holds(*self),
    {
        match self {
            TokenKind::Punctuation(_) => true,
            _ => false,
        }
    }

    pub fn is_currency(&self) -> (r: bool)
        ensures
            r == TokenClass::Currency.holds(*self),
    {
        match self {
            TokenKind::Punctuation(Punctuation::Currency) => true,
            _ => false,
        }
    }

    pub fn is_likely_homograph(&self) -> (r: bool)
        ensures
            r == TokenClass::LikelyHomograph.holds(*self),
    {
        match self {
            TokenKind::Word(meta) => meta.likely_homograph,
            _ => false,
        }
    }

    pub fn is_whitespace(&self) -> (r: bool)
        ensures
            r == blank(*self),
    {
        match self {
            TokenKind::Space(_) => true,
            TokenKind::Newline(_) => true,
            _ => false,
        }
    }

    /// Whether the kind belongs to `class`.
    pub fn is(&self, class: TokenClass) -> (r: bool)
        ensures
            r == class.holds(*self),
    {
        match class {
            TokenClass::Word => self.is_word(),
            TokenClass::WordLike => self.is_word_like(),
            TokenClass::Conjunction => self.is_conjunction(),
            TokenClass::Space => self.is_space(),
            TokenClass::Apostrophe => self.is_apostrophe(),
            TokenClass::Pipe => self.is_pipe(),
            TokenClass::Quote => self.is_quote(),
            TokenClass::Number => self.is_number(),
            TokenClass::At => self.is_at(),
            TokenClass::Ellipsis => self.is_ellipsis(),
            TokenClass::Unlintable => self.is_unlintable(),
            TokenClass::SentenceTerminator => self.is_sentence_terminator(),
            TokenClass::ParagraphBreak => self.is_paragraph_break(),
            TokenClass::ChunkTerminator => self.is_chunk_terminator(),
            TokenClass::Punctuation => self.is_punctuation(),
            TokenClass::Currency => self.is_currency(),
            TokenClass::LikelyHomograph => self.is_likely_homograph(),
        }
    }
}

impl Default for TokenKind {
    fn default() -> (kind: TokenKind)
        ensures
            kind == TokenKind::Unlintable,
    {
        TokenKind::Unlintable
    }
}

} // verus!
