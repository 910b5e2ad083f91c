//! What holds of the units of every token sequence: they are not empty, they
//! follow one another without gap or overlap, together they are the whole
//! sequence, and a terminator stands only at the end of a unit.

use vstd::prelude::*;
use crate::model::{
    indices_of, lemma_indices_of, lemma_none_listed, matches_at, none_match, unit, unit_count,
    unit_end, unit_start, units,
};
use crate::token::Token;
use crate::token_kind::TokenClass;

verus! {

/// Every unit is a non-empty stretch of the sequence. The first starts at
/// the front, each later one where the one before it ends, and the last ends
/// at the back.
pub proof fn lemma_unit_bounds(s: Seq<Token>, class: TokenClass, i: int)
    requires
        0 <= i < unit_count(s, class),
    ensures
        0 <= unit_start(s, class, i) < unit_end(s, class, i) <= s.len(),
        i == 0 ==> unit_start(s, class, i) == 0,
        i > 0 ==> unit_start(s, class, i) == unit_end(s, class, i - 1),
        i == unit_count(s, class) - 1 ==> unit_end(s, class, i) == s.len(),
{
    let b = indices_of(s, class);
    lemma_indices_of(s, class);
    if i < b.len() {
        assert(matches_at(s, class, b[i]));
    }
    if i > 0 {
        assert(matches_at(s, class, b[i - 1]));
    }
}

/// Two different units share no position: the earlier one ends before the
/// later one starts.
pub proof fn lemma_units_do_not_overlap(s: Seq<Token>, class: TokenClass, i: int, j: int)
    requires
        0 <= i < j < unit_count(s, class),
    ensures
        unit_end(s, class, i) <= unit_start(s, class, j),
{
    lemma_indices_of(s, class);
}

/// The first `j` units, joined, are the sequence up to the end of the last
/// of them.
proof fn lemma_units_join_prefix(s: Seq<Token>, class: TokenClass, j: int)
    requires
        0 <= j <= unit_count(s, class),
    ensures
        units(s, class).take(j).flatten_alt() =~= s.subrange(
            0,
            if j == 0 {
                0
            } else {
                unit_end(s, class, j - 1)
            },
        ),
    decreases j,
{
    let u = units(s, class);
    if j > 0 {
        lemma_units_join_prefix(s, class, j - 1);
        lemma_unit_bounds(s, class, j - 1);
        if j > 1 {
            lemma_unit_bounds(s, class, j - 2);
        }
        assert(u.take(j).drop_last() =~= u.take(j - 1));
        assert(u.take(j).last() == unit(s, class, j - 1));
    }
}

/// Joined in order, the units are the sequence itself: no token is lost,
/// doubled or moved.
pub proof fn lemma_units_join_to_whole(s: Seq<Token>, class: TokenClass)
    ensures
        units(s, class).flatten() == s,
{
    let u = units(s, class);
    let n = unit_count(s, class) as int;
    lemma_units_join_prefix(s, class, n);
    u.lemma_flatten_and_flatten_alt_are_equivalent();
    assert(u.take(n) =~= u);
    if n > 0 {
        lemma_unit_bounds(s, class, n - 1);
    }
    assert(u.flatten() =~= s);
}

/// A terminator inside a unit is that unit's last token.
pub proof fn lemma_terminator_only_at_end(s: Seq<Token>, class: TokenClass, i: int, p: int)
    requires
        0 <= i < unit_count(s, class),
        unit_start(s, class, i) <= p < unit_end(s, class, i),
        matches_at(s, class, p),
    ensures
        p == unit_end(s, class, i) - 1,
        i < indices_of(s, class).len(),
        indices_of(s, class)[i] == p,
{
    let b = indices_of(s, class);
    lemma_indices_of(s, class);
    assert(b.contains(p));
    let m = choose|m: int| 0 <= m < b.len() && b[m] == p;
    if i > 0 && m < i {
        assert(m == i - 1 || b[m] < b[i - 1]);
    }
    if i < b.len() && m > i {
        assert(b[i] < b[m]);
    }
}

/// The `k`-th terminator closes the `k`-th unit: it is the last token of
/// that unit, and the next unit, if there is one, starts behind it.
pub proof fn lemma_terminator_closes_unit(s: Seq<Token>, class: TokenClass, k: int)
    requires
        0 <= k < indices_of(s, class).len(),
    ensures
        k < unit_count(s, class),
        unit(s, class, k).len() > 0,
        unit(s, class, k).last() == s[indices_of(s, class)[k]],
        class.holds(unit(s, class, k).last().kind),
        unit_end(s, class, k) == indices_of(s, class)[k] + 1,
        k + 1 < unit_count(s, class) ==> unit_start(s, class, k + 1) == indices_of(s, class)[k]
            + 1,
{
    let b = indices_of(s, class);
    lemma_indices_of(s, class);
    assert(matches_at(s, class, b[k]));
    lemma_unit_bounds(s, class, k);
}

/// Without tokens there are no units, whatever ends a unit.
pub proof fn lemma_empty_has_no_units(class: TokenClass)
    ensures
        units(Seq::<Token>::empty(), class) == Seq::<Seq<Token>>::empty(),
        indices_of(Seq::<Token>::empty(), class) == Seq::<int>::empty(),
        none_match(Seq::<Token>::empty(), class),
{
    assert(units(Seq::<Token>::empty(), class) =~= Seq::<Seq<Token>>::empty());
}

/// Tokens without a terminator among them form one unit: all of them.
pub proof fn lemma_no_terminator_one_unit(s: Seq<Token>, class: TokenClass)
    requires
        s.len() > 0,
        none_match(s, class),
    ensures
        units(s, class) == seq![s],
{
    lemma_none_listed(s, class);
    assert(unit(s, class, 0) =~= s);
    assert(units(s, class) =~= seq![s]);
}

} // verus!
