//! The cards of the game and the rule by which one card rests on another.

use vstd::prelude::*;

verus! {

/// The three suits. Suits are only ever compared for equality.
#[derive(Debug, PartialEq, Eq, Copy, Clone, Structural)]
pub enum Suit {
    Red,
    Green,
    Black,
}

/// A card: a numbered card of a suit (ranks run from 1 to 9), a dragon of a
/// suit, or the single flower.
#[derive(Debug, PartialEq, Eq, Copy, Clone, Structural)]
pub enum Card {
    Number(Suit, usize),
    Dragon(Suit),
    Flower,
}

/// The stacking rule of the tableau: `upper` may rest directly on `lower`
/// when both are numbered, their suits differ, and `lower` ranks exactly one
/// above `upper`.
pub open spec fn stacks_on(upper: Card, lower: Card) -> bool {
    match (upper, lower) {
        (Card::Number(upper_suit, upper_rank), Card::Number(lower_suit, lower_rank)) => {
            upper_suit != lower_suit && lower_rank == upper_rank + 1
        },
        _ => false,
    }
}

/// A run is coherent when every card in it rests on the card just below it.
/// The first card of a run is its bottom, the last its top.
pub open spec fn coherent(run: Seq<Card>) -> bool {
    forall|i: int| 0 < i < run.len() ==> stacks_on(#[trigger] run[i], run[i - 1])
}

/// Returns whether `card1` can be placed on top of `card2` on the tableau.
pub fn can_place_on_top(card1: Card, card2: Card) -> (ok: bool)
    ensures
        ok == stacks_on(card1, card2),
{
    match (card1, card2) {
        (Card::Number(suit1, number1), Card::Number(suit2, number2)) => {
            suit1 != suit2 && number1 < usize::MAX && number2 == number1 + 1
        },
        _ => false,
    }
}

/// Dragons and the flower neither carry a card nor rest on one.
pub proof fn lemma_only_numbers_stack(upper: Card, lower: Card)
    requires
        stacks_on(upper, lower),
    ensures
        upper is Number,
        lower is Number,
{
}

} // verus!
