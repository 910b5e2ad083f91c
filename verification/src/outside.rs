//! The calls into `itertools`. Verus takes the contracts in this module on
//! trust: each says what the named method is documented to return.

use vstd::prelude::*;
use itertools::{Itertools, MinMaxResult};
use crate::model::{is_first, none_match};
use crate::token::Token;
use crate::token_kind::TokenClass;

verus! {

/// The smallest and the largest of a list of numbers, as far as it has any.
#[derive(Debug, Clone, Copy, PartialEq, Eq, Structural)]
pub enum Extremes {
    NoElements,
    OneElement(usize),
    MinMax(usize, usize),
}

/// `Itertools::find_position` over the tokens, with the test for `class` as
/// its predicate: the first token that belongs to the class, with its
/// position, or nothing where no token belongs to it.
#[verifier::external_body]
pub(crate) fn find_position_of(tokens: &[Token], class: TokenClass) -> (found: Option<
    (usize, Token),
>)
    ensures
        match found {
            Some((i, token)) => is_first(tokens@, class, i as int) && token == tokens@[i as int],
            None => none_match(tokens@, class),
        },
{
    tokens.iter().find_position(|token| token.kind.is(class)).map(|(i, token)| (i, *token))
}

/// `Itertools::minmax` over the numbers: nothing for an empty list, the
/// element itself for a list of one, and else the smallest and the largest
/// element.
#[verifier::external_body]
pub(crate) fn minmax_of(values: &Vec<usize>) -> (found: Extremes)
    ensures
        match found {
            Extremes::NoElements => values@.len() == 0,
            Extremes::OneElement(x) => values@.len() == 1 && x == values@[0],
            Extremes::MinMax(lo, hi) => {
                &&& values@.len() >= 2
                &&& values@.contains(lo)
                &&& values@.contains(hi)
                &&& forall|k: int| 0 <= k < values@.len() ==> lo <= #[trigger] values@[k] <= hi
            },
        },
{
    match values.iter().copied().minmax() {
        MinMaxResult::NoElements => Extremes::NoElements,
        MinMaxResult::OneElement(x) => Extremes::OneElement(x),
        MinMaxResult::MinMax(lo, hi) => Extremes::MinMax(lo, hi),
    }
}

/// `Itertools::tuple_windows` over the numbers, for windows of two: each
/// element paired with the one behind it, in order; no pair for a list of
/// fewer than two.
#[verifier::external_body]
pub(crate) fn windows_of(values: &Vec<usize>) -> (pairs: Vec<(usize, usize)>)
    ensures
        values@.len() == 0 ==> pairs@.len() == 0,
        values@.len() > 0 ==> pairs@.len() == values@.len() - 1,
        forall|k: int|
            0 <= k < pairs@.len() ==> #[trigger] pairs@[k] == (values@[k], values@[k + 1]),
{
    values.iter().copied().tuple_windows().collect()
}

} // verus!
