//! The mathematical model of the queries: which positions of a token
//! sequence hold a token of a class, and how the sequence falls into units
//! that each end with a terminator.

use vstd::prelude::*;
use crate::token::Token;
use crate::token_kind::{links, TokenClass};

verus! {

/// Position `i` lies in `s` and its token belongs to `class`.
pub open spec fn matches_at(s: Seq<Token>, class: TokenClass, i: int) -> bool {
    0 <= i < s.len() && class.holds(s[i].kind)
}

/// No token of `s` belongs to `class`.
pub open spec fn none_match(s: Seq<Token>, class: TokenClass) -> bool {
    forall|i: int| !matches_at(s, class, i)
}

/// `i` is the first position of `s` whose token belongs to `class`.
pub open spec fn is_first(s: Seq<Token>, class: TokenClass, i: int) -> bool {
    matches_at(s, class, i) && forall|j: int| j < i ==> !matches_at(s, class, j)
}

/// `i` is the last position of `s` whose token belongs to `class`.
pub open spec fn is_last(s: Seq<Token>, class: TokenClass, i: int) -> bool {
    matches_at(s, class, i) && forall|j: int| i < j ==> !matches_at(s, class, j)
}

/// The positions of `s` whose tokens belong to `class`, ascending.
pub open spec fn indices_of(s: Seq<Token>, class: TokenClass) -> Seq<int>
    decreases s.len(),
{
    if s.len() == 0 {
        Seq::empty()
    } else {
        let earlier = indices_of(s.drop_last(), class);
        if class.holds(s.last().kind) {
            earlier.push(s.len() - 1)
        } else {
            earlier
        }
    }
}

/// A list of positions, read as mathematical integers.
pub open spec fn as_ints(positions: Seq<usize>) -> Seq<int> {
    Seq::new(positions.len(), |k: int| positions[k] as int)
}

/// The tokens of `s` at the given positions, in the order of the positions.
pub open spec fn tokens_at(s: Seq<Token>, positions: Seq<int>) -> Seq<Token> {
    Seq::new(positions.len(), |k: int| s[positions[k]])
}

/// Position `i` lies in `s` and holds a word that is a linking verb.
pub open spec fn links_at(s: Seq<Token>, i: int) -> bool {
    0 <= i < s.len() && links(s[i].kind)
}

/// `positions` lists, ascending and without gaps, the positions of `s` that
/// hold a linking verb.
pub open spec fn lists_linking_verbs(s: Seq<Token>, positions: Seq<int>) -> bool {
    &&& forall|k: int| 0 <= k < positions.len() ==> links_at(s, #[trigger] positions[k])
    &&& forall|k: int, l: int| 0 <= k < l < positions.len() ==> positions[k] < positions[l]
    &&& forall|i: int| links_at(s, i) ==> positions.contains(i)
}

/// `x` is the smallest of the starts and ends of the spans of `s`.
pub open spec fn is_lowest_bound(s: Seq<Token>, x: int) -> bool {
    &&& exists|i: int| 0 <= i < s.len() && (#[trigger] s[i].span.start == x || s[i].span.end == x)
    &&& forall|i: int| 0 <= i < s.len() ==> x <= (#[trigger] s[i]).span.start && x <= s[i].span.end
}

/// `x` is the largest of the starts and ends of the spans of `s`.
pub open spec fn is_highest_bound(s: Seq<Token>, x: int) -> bool {
    &&& exists|i: int| 0 <= i < s.len() && (#[trigger] s[i].span.start == x || s[i].span.end == x)
    &&& forall|i: int| 0 <= i < s.len() ==> x >= (#[trigger] s[i]).span.start && x >= s[i].span.end
}

/// How many units `s` falls into when tokens that belong to `class` end a
/// unit: one for each terminator, and one more for what follows the last one.
pub open spec fn unit_count(s: Seq<Token>, class: TokenClass) -> nat {
    let b = indices_of(s, class);
    if s.len() == 0 {
        0
    } else if b.len() > 0 && b.last() + 1 == s.len() {
        b.len()
    } else {
        b.len() + 1
    }
}

/// The position at which unit `i` starts: just behind the terminator of the
/// unit before it.
pub open spec fn unit_start(s: Seq<Token>, class: TokenClass, i: int) -> int {
    if i <= 0 {
        0
    } else {
        indices_of(s, class)[i - 1] + 1
    }
}

/// The position just behind unit `i`: behind its terminator, or the end of
/// `s` for a last unit without one.
pub open spec fn unit_end(s: Seq<Token>, class: TokenClass, i: int) -> int {
    let b = indices_of(s, class);
    if i < b.len() {
        b[i] + 1
    } else {
        s.len() as int
    }
}

/// The tokens of unit `i`.
pub open spec fn unit(s: Seq<Token>, class: TokenClass, i: int) -> Seq<Token> {
    s.subrange(unit_start(s, class, i), unit_end(s, class, i))
}

/// The units of `s`, in order.
pub open spec fn units(s: Seq<Token>, class: TokenClass) -> Seq<Seq<Token>> {
    Seq::new(unit_count(s, class), |i: int| unit(s, class, i))
}

/// The listed positions are exactly the matching ones, each once, ascending.
pub proof fn lemma_indices_of(s: Seq<Token>, class: TokenClass)
    ensures
        indices_of(s, class).len() <= s.len(),
        forall|k: int|
            0 <= k < indices_of(s, class).len() ==> matches_at(
                s,
                class,
                #[trigger] indices_of(s, class)[k],
            ),
        forall|k: int, l: int|
            0 <= k < l < indices_of(s, class).len() ==> indices_of(s, class)[k] < indices_of(
                s,
                class,
            )[l],
        forall|i: int| matches_at(s, class, i) ==> indices_of(s, class).contains(i),
    decreases s.len(),
{
    if s.len() > 0 {
        let front = s.drop_last();
        let earlier = indices_of(front, class);
        let b = indices_of(s, class);
        lemma_indices_of(front, class);
        assert forall|k: int| 0 <= k < b.len() implies matches_at(s, class, #[trigger] b[k]) by {
            if k < earlier.len() {
                assert(matches_at(front, class, earlier[k]));
                assert(front[earlier[k]] == s[earlier[k]]);
            }
        }
        assert forall|k: int, l: int| 0 <= k < l < b.len() implies b[k] < b[l] by {
            assert(matches_at(front, class, earlier[k]));
            if l < earlier.len() {
                assert(matches_at(front, class, earlier[l]));
            }
        }
        assert forall|i: int| matches_at(s, class, i) implies b.contains(i) by {
            if i < s.len() - 1 {
                assert(front[i] == s[i]);
                assert(matches_at(front, class, i));
                let k = choose|k: int| 0 <= k < earlier.len() && earlier[k] == i;
                assert(b[k] == i);
            } else {
                assert(b[b.len() - 1] == i);
            }
        }
    }
}

/// The last matching position is the last one listed.
pub proof fn lemma_last_listed(s: Seq<Token>, class: TokenClass, i: int)
    requires
        is_last(s, class, i),
    ensures
        indices_of(s, class).len() > 0,
        indices_of(s, class).last() == i,
{
    let b = indices_of(s, class);
    lemma_indices_of(s, class);
    assert(b.contains(i));
    let k = choose|k: int| 0 <= k < b.len() && b[k] == i;
    if k < b.len() - 1 {
        assert(matches_at(s, class, b[b.len() - 1]));
        assert(b[k] < b[b.len() - 1]);
    }
}

/// Where nothing matches, nothing is listed, and the other way round.
pub proof fn lemma_none_listed(s: Seq<Token>, class: TokenClass)
    ensures
        none_match(s, class) <==> indices_of(s, class).len() == 0,
{
    let b = indices_of(s, class);
    lemma_indices_of(s, class);
    if b.len() > 0 {
        assert(matches_at(s, class, b[0]));
    }
    if b.len() == 0 {
        assert forall|i: int| !matches_at(s, class, i) by {
            if matches_at(s, class, i) {
                assert(b.contains(i));
            }
        }
    }
}

/// A sequence has at most one last matching position, so a search that
/// answers with the last matching position, or with nothing where nothing
/// matches, answers with exactly that position.
pub proof fn lemma_last_index_exact(
    s: Seq<Token>,
    class: TokenClass,
    j: int,
    found: Option<usize>,
)
    requires
        is_last(s, class, j),
        match found {
            Some(i) => is_last(s, class, i as int),
            None => none_match(s, class),
        },
    ensures
        found == Some(j as usize),
        found.unwrap() as int == j,
{
}

/// The tokens found for a class are those at the positions found for it:
/// as many, and the `k`-th token stands at the `k`-th position.
pub proof fn lemma_tokens_follow_indices(
    s: Seq<Token>,
    class: TokenClass,
    positions: Seq<usize>,
    found: Seq<Token>,
)
    requires
        as_ints(positions) == indices_of(s, class),
        found == tokens_at(s, indices_of(s, class)),
    ensures
        found == positions.map_values(|i: usize| s[i as int]),
{
    assert forall|k: int| 0 <= k < positions.len() implies found[k] == s[positions[k] as int] by {
        assert(as_ints(positions)[k] == positions[k]);
    }
    assert(found =~= positions.map_values(|i: usize| s[i as int]));
}

/// The test that a token belongs to `class`, as a predicate on tokens.
pub open spec fn has(class: TokenClass) -> spec_fn(Token) -> bool {
    |token: Token| class.holds(token.kind)
}

/// The tokens at the matching positions are the sequence with every other
/// token left out.
pub proof fn lemma_tokens_are_filtered(s: Seq<Token>, class: TokenClass)
    ensures
        tokens_at(s, indices_of(s, class)) == s.filter(has(class)),
    decreases s.len(),
{
    reveal(Seq::filter);
    if s.len() > 0 {
        let front = s.drop_last();
        let earlier = indices_of(front, class);
        lemma_tokens_are_filtered(front, class);
        lemma_indices_of(front, class);
        assert forall|k: int| 0 <= k < earlier.len() implies tokens_at(s, earlier)[k] == tokens_at(
            front,
            earlier,
        )[k] by {
            assert(matches_at(front, class, earlier[k]));
        }
        assert(tokens_at(s, earlier) =~= tokens_at(front, earlier));
        if class.holds(s.last().kind) {
            assert(tokens_at(s, earlier.push(s.len() - 1)) =~= tokens_at(s, earlier).push(
                s.last(),
            ));
        }
    }
    assert(tokens_at(s, indices_of(s, class)) =~= s.filter(has(class)));
}

/// The spans are not reversed, and each token starts where the one before it
/// ends, or behind that.
pub open spec fn in_order(s: Seq<Token>) -> bool {
    &&& forall|i: int| 0 <= i < s.len() ==> (#[trigger] s[i]).span.wf()
    &&& forall|i: int, j: int|
        0 <= i < j < s.len() ==> (#[trigger] s[i]).span.end <= (#[trigger] s[j]).span.start
}

/// A sequence has one lowest and one highest bound at most.
pub proof fn lemma_bounds_unique(s: Seq<Token>, x: int, y: int)
    ensures
        is_lowest_bound(s, x) && is_lowest_bound(s, y) ==> x == y,
        is_highest_bound(s, x) && is_highest_bound(s, y) ==> x == y,
{
}

/// Of tokens in order, the lowest bound is the start of the first and the
/// highest bound the end of the last: their span reaches from the one to the
/// other.
pub proof fn lemma_bounds_of_ordered(s: Seq<Token>)
    requires
        s.len() > 0,
        in_order(s),
    ensures
        is_lowest_bound(s, s.first().span.start as int),
        is_highest_bound(s, s.last().span.end as int),
{
    let first = s[0];
    let last = s[s.len() - 1];
    assert(first.span.wf() && last.span.wf());
    assert forall|i: int| 0 <= i < s.len() implies first.span.start <= (#[trigger] s[i]).span.start
        && first.span.start <= s[i].span.end && last.span.end >= s[i].span.start && last.span.end
        >= s[i].span.end by {
        assert(s[i].span.wf());
        if 0 < i {
            assert(s[0].span.end <= s[i].span.start);
        }
        if i < s.len() - 1 {
            assert(s[i].span.end <= s[s.len() - 1].span.start);
        }
    }
}

} // verus!
