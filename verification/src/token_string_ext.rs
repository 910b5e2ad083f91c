//! Queries on a sequence of tokens: by class of the kind, and by unit
//! (chunk, sentence, paragraph).

use vstd::prelude::*;
use vstd::pervasive::unreached;
use vstd::slice::slice_subrange;
use crate::model::{
    as_ints, has, indices_of, is_first, is_highest_bound, is_last, is_lowest_bound,
    lemma_indices_of, lemma_last_listed, lemma_none_listed, lemma_tokens_are_filtered, links_at,
    lists_linking_verbs, matches_at, none_match, tokens_at, unit, units,
};
use crate::outside::{find_position_of, minmax_of, windows_of, Extremes};
use crate::span::Span;
use crate::token::Token;
use crate::token_kind::{blank, TokenClass, TokenKind};

verus! {

/// `w` holds the first word of `s`, and no unlintable token stands before it.
pub open spec fn sentence_word_at(s: Seq<Token>, w: int) -> bool {
    is_first(s, TokenClass::Word, w) && forall|u: int|
        u <= w ==> !matches_at(s, TokenClass::Unlintable, u)
}

/// `i` holds the first token of `s` that is not whitespace.
pub open spec fn first_visible_at(s: Seq<Token>, i: int) -> bool {
    &&& 0 <= i < s.len()
    &&& !blank(s[i].kind)
    &&& forall|j: int| 0 <= j < i ==> blank(#[trigger] s[j].kind)
}

/// The start or the end of a token's span: the start at an even `k`, the
/// end at an odd one, for the token at position `k / 2`.
pub open spec fn endpoint(s: Seq<Token>, k: int) -> usize {
    if k % 2 == 0 {
        s[k / 2].span.start
    } else {
        s[k / 2].span.end
    }
}

/// What each of the borrowed slices holds.
pub open spec fn views(slices: Seq<&[Token]>) -> Seq<Seq<Token>> {
    Seq::new(slices.len(), |i: int| slices[i]@)
}

/// The position of the first token that belongs to `class`.
fn position_of(tokens: &[Token], class: TokenClass) -> (found: Option<usize>)
    ensures
        match found {
            Some(i) => is_first(tokens@, class, i as int),
            None => none_match(tokens@, class),
        },
{
    let mut i: usize = 0;
    while i < tokens.len()
        invariant
            i <= tokens@.len(),
            forall|j: int| j < i ==> !matches_at(tokens@, class, j),
        decreases tokens@.len() - i,
    {
        if tokens[i].kind.is(class) {
            return Some(i);
        }
        i += 1;
    }
    None
}

pub trait TokenStringExt {
    /// The tokens, as a mathematical sequence.
    spec fn tokens(&self) -> Seq<Token>;

    /// The first word, unless an unlintable token stands before it.
    fn first_sentence_word(&self) -> (found: Option<Token>)
        ensures
            match found {
                Some(token) => exists|w: int|
                    #[trigger] sentence_word_at(self.tokens(), w) && token == self.tokens()[w],
                None => forall|w: int| !sentence_word_at(self.tokens(), w),
            },
            self.tokens().len() == 0 ==> found is None,
    ;

    /// The first token that is neither a run of spaces nor of line breaks.
    fn first_non_whitespace(&self) -> (found: Option<Token>)
        ensures
            match found {
                Some(token) => exists|i: int|
                    #[trigger] first_visible_at(self.tokens(), i) && token == self.tokens()[i],
                None => forall|i: int|
                    0 <= i < self.tokens().len() ==> blank(#[trigger] self.tokens()[i].kind),
            },
            self.tokens().len() == 0 ==> found is None,
    ;

    /// The span from the lowest to the highest bound of the tokens' spans;
    /// for a single token, the empty span at its lowest bound.
    fn span(&self) -> (found: Option<Span>)
        ensures
            match found {
                None => self.tokens().len() == 0,
                Some(span) => {
                    &&& self.tokens().len() > 0
                    &&& span.wf()
                    &&& is_lowest_bound(self.tokens(), span.start as int)
                    &&& if self.tokens().len() == 1 {
                        span.end == span.start
                    } else {
                        is_highest_bound(self.tokens(), span.end as int)
                    }
                },
            },
    ;

    /// The first token that belongs to `class`.
    fn first_of(&self, class: TokenClass) -> (found: Option<Token>)
        ensures
            match found {
                Some(token) => exists|i: int|
                    #[trigger] is_first(self.tokens(), class, i) && token == self.tokens()[i],
                None => none_match(self.tokens(), class),
            },
            self.tokens().len() == 0 ==> found is None,
    ;

    /// The last token that belongs to `class`.
    fn last_of(&self, class: TokenClass) -> (found: Option<Token>)
        ensures
            match found {
                Some(token) => exists|i: int|
                    #[trigger] is_last(self.tokens(), class, i) && token == self.tokens()[i],
                None => none_match(self.tokens(), class),
            },
            self.tokens().len() == 0 ==> found is None,
    ;

    /// The position of the last token that belongs to `class`.
    fn last_index_of(&self, class: TokenClass) -> (found: Option<usize>)
        ensures
            match found {
                Some(i) => is_last(self.tokens(), class, i as int),
                None => none_match(self.tokens(), class),
            },
            self.tokens().len() == 0 ==> found is None,
    ;

    /// The positions of the tokens that belong to `class`, ascending.
    fn iter_indices_of(&self, class: TokenClass) -> (positions: Vec<usize>)
        ensures
            as_ints(positions@) == indices_of(self.tokens(), class),
            self.tokens().len() == 0 ==> positions@.len() == 0,
    ;

    /// The tokens that belong to `class`, in their order.
    fn iter_of(&self, class: TokenClass) -> (found: Vec<Token>)
        ensures
            found@ == tokens_at(self.tokens(), indices_of(self.tokens(), class)),
            found@ == self.tokens().filter(has(class)),
            self.tokens().len() == 0 ==> found@.len() == 0,
    ;

    /// The positions of the words that are linking verbs, ascending.
    fn iter_linking_verb_indices(&self) -> (positions: Vec<usize>)
        ensures
            lists_linking_verbs(self.tokens(), as_ints(positions@)),
            self.tokens().len() == 0 ==> positions@.len() == 0,
    ;

    /// The words that are linking verbs, in their order.
    fn iter_linking_verbs(&self) -> (found: Vec<Token>)
        ensures
            exists|positions: Seq<int>|
                lists_linking_verbs(self.tokens(), positions) && found@ == tokens_at(
                    self.tokens(),
                    positions,
                ),
            self.tokens().len() == 0 ==> found@.len() == 0,
    ;

    /// The units into which the tokens fall when each token that belongs to
    /// `class` ends one. What follows the last such token is a unit too; no
    /// tokens, no unit.
    fn iter_units(&self, class: TokenClass) -> (found: Vec<&[Token]>)
        ensures
            views(found@) == units(self.tokens(), class),
            self.tokens().len() == 0 ==> found@.len() == 0,
    ;

    /// The chunks: the units that end with a chunk terminator, such as a
    /// comma.
    fn iter_chunks(&self) -> (found: Vec<&[Token]>)
        ensures
            views(found@) == units(self.tokens(), TokenClass::ChunkTerminator),
            self.tokens().len() == 0 ==> found@.len() == 0,
    ;

    /// The paragraphs: the units that end with a paragraph break.
    fn iter_paragraphs(&self) -> (found: Vec<&[Token]>)
        ensures
            views(found@) == units(self.tokens(), TokenClass::ParagraphBreak),
            self.tokens().len() == 0 ==> found@.len() == 0,
    ;

    /// The sentences: the units that end with a sentence terminator.
    fn iter_sentences(&self) -> (found: Vec<&[Token]>)
        ensures
            views(found@) == units(self.tokens(), TokenClass::SentenceTerminator),
            self.tokens().len() == 0 ==> found@.len() == 0,
    ;
}

impl TokenStringExt for [Token] {
    open spec fn tokens(&self) -> Seq<Token> {
        self@
    }

    fn first_sentence_word(&self) -> (found: Option<Token>) {
        let (w_idx, word) = match find_position_of(self, TokenClass::Word) {
            Some(at) => at,
            None => {
                assert(none_match(self.tokens(), TokenClass::Word));
                return None;
            },
        };
        match position_of(self, TokenClass::Unlintable) {
            None => {
                assert(sentence_word_at(self.tokens(), w_idx as int));
                Some(word)
            },
            Some(u_idx) => {
                if w_idx < u_idx {
                    assert(sentence_word_at(self.tokens(), w_idx as int));
                    Some(word)
                } else {
                    assert forall|w: int| !sentence_word_at(self@, w) by {
                        if sentence_word_at(self@, w) {
                            assert(w == w_idx);
                            assert(matches_at(self@, TokenClass::Unlintable, u_idx as int));
                        }
                    }
                    None
                }
            },
        }
    }

    fn first_non_whitespace(&self) -> (found: Option<Token>) {
        let mut i: usize = 0;
        while i < self.len()
            invariant
                i <= self@.len(),
                forall|j: int| 0 <= j < i ==> blank(#[trigger] self@[j].kind),
            decreases self@.len() - i,
        {
            if !self[i].kind.is_whitespace() {
                assert(first_visible_at(self.tokens(), i as int));
                return Some(self[i]);
            }
            i += 1;
        }
        None
    }

    fn span(&self) -> (found: Option<Span>) {
        let n: usize = self.len();
        let mut bounds: Vec<usize> = Vec::new();
        let mut i: usize = 0;
        while i < n
            invariant
                n == self@.len(),
                i <= n,
                bounds@.len() == 2 * i,
                forall|k: int| 0 <= k < bounds@.len() ==> bounds@[k] == endpoint(self@, k),
            decreases n - i,
        {
            bounds.push(self[i].span.start);
            bounds.push(self[i].span.end);
            i += 1;
        }
        match minmax_of(&bounds) {
            Extremes::NoElements => None,
            Extremes::OneElement(min) => Some(Span::new(min, min)),
            Extremes::MinMax(min, max) => {
                proof {
                    let a = choose|a: int| 0 <= a < bounds@.len() && bounds@[a] == min;
                    let b = choose|b: int| 0 <= b < bounds@.len() && bounds@[b] == max;
                    assert(bounds@[a] == endpoint(self@, a));
                    assert(bounds@[b] == endpoint(self@, b));
                    assert(self@[a / 2].span.start == min || self@[a / 2].span.end == min);
                    assert(self@[b / 2].span.start == max || self@[b / 2].span.end == max);
                    assert forall|j: int| 0 <= j < self@.len() implies {
                        &&& min <= (#[trigger] self@[j]).span.start <= max
                        &&& min <= self@[j].span.end <= max
                    } by {
                        assert(bounds@[2 * j] == endpoint(self@, 2 * j));
                        assert(bounds@[2 * j + 1] == endpoint(self@, 2 * j + 1));
                    }
                }
                if n == 1 {
                    Some(Span::new(min, min))
                } else {
                    Some(Span::new(min, max))
                }
            },
        }
    }

    fn first_of(&self, class: TokenClass) -> (found: Option<Token>) {
        match position_of(self, class) {
            Some(i) => {
                assert(is_first(self.tokens(), class, i as int));
                Some(self[i])
            },
            None => {
                assert(none_match(self.tokens(), class));
                None
            },
        }
    }

    fn last_of(&self, class: TokenClass) -> (found: Option<Token>) {
        match self.last_index_of(class) {
            Some(i) => {
                assert(is_last(self.tokens(), class, i as int));
                Some(self[i])
            },
            None => None,
        }
    }

    fn last_index_of(&self, class: TokenClass) -> (found: Option<usize>) {
        let n: usize = self.len();
        let mut back: usize = 0;
        while back < n
            invariant
                n == self@.len(),
                back <= n,
                forall|j: int| n - back <= j ==> !matches_at(self@, class, j),
            decreases n - back,
        {
            if self[n - back - 1].kind.is(class) {
                return Some(n - back - 1);
            }
            back += 1;
        }
        None
    }

    fn iter_indices_of(&self, class: TokenClass) -> (positions: Vec<usize>) {
        let mut positions: Vec<usize> = Vec::new();
        let mut i: usize = 0;
        assert(self@.take(0) =~= Seq::empty());
        while i < self.len()
            invariant
                i <= self@.len(),
                as_ints(positions@) =~= indices_of(self@.take(i as int), class),
            decreases self@.len() - i,
        {
            proof {
                assert(self@.take(i + 1).drop_last() =~= self@.take(i as int));
                assert(self@.take(i + 1).last() == self@[i as int]);
            }
            if self[i].kind.is(class) {
                positions.push(i);
            }
            i += 1;
        }
        assert(self@.take(i as int) =~= self@);
        positions
    }

    fn iter_of(&self, class: TokenClass) -> (found: Vec<Token>) {
        let positions = self.iter_indices_of(class);
        let mut found: Vec<Token> = Vec::new();
        let mut k: usize = 0;
        proof {
            lemma_indices_of(self@, class);
        }
        while k < positions.len()
            invariant
                k <= positions@.len(),
                as_ints(positions@) == indices_of(self@, class),
                forall|m: int|
                    0 <= m < positions@.len() ==> matches_at(
                        self@,
                        class,
                        #[trigger] indices_of(self@, class)[m],
                    ),
                found@.len() == k,
                forall|m: int| 0 <= m < k ==> found@[m] == self@[indices_of(self@, class)[m]],
            decreases positions@.len() - k,
        {
            assert(as_ints(positions@)[k as int] == positions@[k as int]);
            found.push(self[positions[k]]);
            k += 1;
        }
        proof {
            assert(found@ =~= tokens_at(self@, indices_of(self@, class)));
            lemma_tokens_are_filtered(self@, class);
        }
        found
    }

    fn iter_linking_verb_indices(&self) -> (positions: Vec<usize>) {
        let words = self.iter_indices_of(TokenClass::Word);
        let mut positions: Vec<usize> = Vec::new();
        let mut k: usize = 0;
        proof {
            lemma_indices_of(self@, TokenClass::Word);
        }
        let ghost b = indices_of(self@, TokenClass::Word);
        while k < words.len()
            invariant
                k <= words@.len(),
                as_ints(words@) == b,
                b == indices_of(self@, TokenClass::Word),
                forall|m: int|
                    0 <= m < b.len() ==> matches_at(self@, TokenClass::Word, #[trigger] b[m]),
                forall|m: int, l: int| 0 <= m < l < b.len() ==> b[m] < b[l],
                forall|j: int|
                    0 <= j < positions@.len() ==> links_at(
                        self@,
                        #[trigger] positions@[j] as int,
                    ),
                forall|j: int|
                    0 <= j < positions@.len() ==> k > 0 && (#[trigger] positions@[j]) <= b[k - 1],
                forall|j: int, l: int|
                    0 <= j < l < positions@.len() ==> positions@[j] < positions@[l],
                forall|m: int|
                    0 <= m < k && links_at(self@, b[m]) ==> as_ints(positions@).contains(
                        #[trigger] b[m],
                    ),
            decreases words@.len() - k,
        {
            let idx: usize = words[k];
            assert(b[k as int] == idx);
            let word = self[idx];
            let meta = match word.kind {
                TokenKind::Word(meta) => meta,
                _ => unreached(),
            };
            let ghost before = positions@;
            if meta.is_linking_verb() {
                positions.push(idx);
                proof {
                    assert(as_ints(positions@)[before.len() as int] == idx);
                    assert forall|j: int| 0 <= j < before.len() implies before[j] < idx by {
                        assert(before[j] <= b[k - 1]);
                    }
                }
            }
            proof {
                assert forall|m: int| 0 <= m < k && links_at(self@, b[m]) implies as_ints(
                    positions@,
                ).contains(#[trigger] b[m]) by {
                    assert(as_ints(before).contains(b[m]));
                    let j = choose|j: int| 0 <= j < before.len() && as_ints(before)[j] == b[m];
                    assert(as_ints(positions@)[j] == b[m]);
                }
            }
            k += 1;
        }
        proof {
            let p = as_ints(positions@);
            assert forall|i: int| links_at(self@, i) implies p.contains(i) by {
                assert(matches_at(self@, TokenClass::Word, i));
                assert(b.contains(i));
                let m = choose|m: int| 0 <= m < b.len() && b[m] == i;
                assert(p.contains(b[m]));
            }
            assert forall|j: int| 0 <= j < p.len() implies links_at(self@, #[trigger] p[j]) by {
                assert(links_at(self@, positions@[j] as int));
            }
            if positions@.len() > 0 {
                assert(links_at(self@, positions@[0] as int));
            }
        }
        positions
    }

    fn iter_linking_verbs(&self) -> (found: Vec<Token>) {
        let positions = self.iter_linking_verb_indices();
        let mut found: Vec<Token> = Vec::new();
        let mut k: usize = 0;
        while k < positions.len()
            invariant
                k <= positions@.len(),
                lists_linking_verbs(self@, as_ints(positions@)),
                found@.len() == k,
                forall|m: int| 0 <= m < k ==> found@[m] == self@[positions@[m] as int],
            decreases positions@.len() - k,
        {
            assert(links_at(self@, as_ints(positions@)[k as int]));
            found.push(self[positions[k]]);
            k += 1;
        }
        assert(found@ =~= tokens_at(self@, as_ints(positions@)));
        found
    }

    fn iter_units(&self, class: TokenClass) -> (found: Vec<&[Token]>) {
        let n: usize = self.len();
        let terms = self.iter_indices_of(class);
        let ghost b = indices_of(self@, class);
        proof {
            lemma_indices_of(self@, class);
            assert forall|m: int| 0 <= m < b.len() implies 0 <= #[trigger] terms@[m] < n by {
                assert(as_ints(terms@)[m] == terms@[m]);
                assert(matches_at(self@, class, b[m]));
            }
        }
        let mut found: Vec<&[Token]> = Vec::new();
        if terms.len() > 0 {
            let first_term: usize = terms[0];
            assert(as_ints(terms@)[0] == first_term);
            found.push(slice_subrange(self, 0, first_term + 1));
        }
        let pairs = windows_of(&terms);
        let mut k: usize = 0;
        while k < pairs.len()
            invariant
                n == self@.len(),
                k <= pairs@.len(),
                terms@.len() == 0 ==> pairs@.len() == 0 && found@.len() == 0,
                terms@.len() > 0 ==> pairs@.len() == terms@.len() - 1 && found@.len() == k + 1,
                as_ints(terms@) == b,
                b == indices_of(self@, class),
                forall|m: int| 0 <= m < b.len() ==> 0 <= #[trigger] terms@[m] < n,
                forall|m: int, l: int| 0 <= m < l < b.len() ==> b[m] < b[l],
                forall|m: int|
                    0 <= m < pairs@.len() ==> #[trigger] pairs@[m] == (terms@[m], terms@[m + 1]),
                forall|i: int|
                    0 <= i < found@.len() ==> (#[trigger] found@[i])@ == unit(self@, class, i),
            decreases pairs@.len() - k,
        {
            let (a, z) = pairs[k];
            proof {
                assert(pairs@[k as int] == (terms@[k as int], terms@[k + 1]));
                assert(as_ints(terms@)[k as int] == a);
                assert(as_ints(terms@)[k + 1] == z);
                assert(b[k as int] < b[k + 1]);
                assert(0 <= terms@[k + 1] < n);
            }
            found.push(slice_subrange(self, a + 1, z + 1));
            k += 1;
        }
        match self.last_index_of(class) {
            Some(last_i) => {
                proof {
                    lemma_last_listed(self@, class, last_i as int);
                }
                if last_i + 1 < n {
                    found.push(slice_subrange(self, last_i + 1, n));
                }
            },
            None => {
                proof {
                    lemma_none_listed(self@, class);
                }
                if n > 0 {
                    assert(self@ =~= self@.subrange(0, n as int));
                    found.push(self);
                }
            },
        }
        assert(views(found@) =~= units(self@, class));
        found
    }

    fn iter_chunks(&self) -> (found: Vec<&[Token]>) {
        self.iter_units(TokenClass::ChunkTerminator)
    }

    fn iter_paragraphs(&self) -> (found: Vec<&[Token]>) {
        self.iter_units(TokenClass::ParagraphBreak)
    }

    fn iter_sentences(&self) -> (found: Vec<&[Token]>) {
        self.iter_units(TokenClass::SentenceTerminator)
    }
}

} // verus!
