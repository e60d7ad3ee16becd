//! The forty-card deck: its fixed order as built, and its shuffling.

use crate::cards::{Card, Suit};
use rand::Rng;
use vstd::multiset::Multiset;
use vstd::prelude::*;

verus! {

/// The thirteen cards of one suit in the order they are built: ranks 1 to 9,
/// then the four dragons.
pub open spec fn suit_cards(suit: Suit) -> Seq<Card> {
    seq![
        Card::Number(suit, 1),
        Card::Number(suit, 2),
        Card::Number(suit, 3),
        Card::Number(suit, 4),
        Card::Number(suit, 5),
        Card::Number(suit, 6),
        Card::Number(suit, 7),
        Card::Number(suit, 8),
        Card::Number(suit, 9),
        Card::Dragon(suit),
        Card::Dragon(suit),
        Card::Dragon(suit),
        Card::Dragon(suit),
    ]
}

/// The unshuffled deck: the flower, then the red, green and black cards.
pub open spec fn full_deck() -> Seq<Card> {
    seq![Card::Flower] + suit_cards(Suit::Red) + suit_cards(Suit::Green) + suit_cards(Suit::Black)
}

/// How many copies of `card` a deck holds: one flower, one of each rank from
/// 1 to 9 in each suit, four dragons in each suit, and nothing else.
pub open spec fn copies_in_deck(card: Card) -> nat {
    match card {
        Card::Flower => 1,
        Card::Number(_, rank) => if 1 <= rank <= 9 { 1 } else { 0 },
        Card::Dragon(_) => 4,
    }
}

/// A sequence of cards is a complete deck when it holds the cards of
/// `full_deck`, each as often as there, in any order.
pub open spec fn is_complete_deck(cards: Seq<Card>) -> bool {
    cards.to_multiset() == full_deck().to_multiset()
}

/// The suit at position `index` of the building order.
pub open spec fn suit_at(index: int) -> Suit {
    if index == 0 {
        Suit::Red
    } else if index == 1 {
        Suit::Green
    } else {
        Suit::Black
    }
}

/// The first `done` suits of the unshuffled deck, after the flower.
pub open spec fn deck_prefix(done: int) -> Seq<Card>
    decreases done,
{
    if done <= 0 {
        seq![Card::Flower]
    } else {
        deck_prefix(done - 1) + suit_cards(suit_at(done - 1))
    }
}

fn suit_by_index(index: usize) -> (suit: Suit)
    ensures
        suit == suit_at(index as int),
{
    if index == 0 {
        Suit::Red
    } else if index == 1 {
        Suit::Green
    } else {
        Suit::Black
    }
}

/// Builds the deck in its fixed order.
pub fn make_deck() -> (deck: Vec<Card>)
    ensures
        deck@ == full_deck(),
        deck@.len() == 40,
{
    let mut ret: Vec<Card> = Vec::new();
    ret.push(Card::Flower);
    let mut s: usize = 0;
    assert(ret@ =~= deck_prefix(0));
    while s < 3
        invariant
            s <= 3,
            ret@ == deck_prefix(s as int),
        decreases 3 - s,
    {
        let suit = suit_by_index(s);
        let ghost start = ret@;
        let mut number: usize = 1;
        while number < 9 + 1
            invariant
                1 <= number <= 10,
                ret@ == start + suit_cards(suit).take(number - 1),
            decreases 10 - number,
        {
            ret.push(Card::Number(suit, number));
            assert(ret@ =~= start + suit_cards(suit).take(number as int));
            number = number + 1;
        }
        let mut i: usize = 0;
        while i < 4
            invariant
                i <= 4,
                ret@ == start + suit_cards(suit).take(9 + i),
            decreases 4 - i,
        {
            ret.push(Card::Dragon(suit));
            assert(ret@ =~= start + suit_cards(suit).take(9 + i + 1));
            i = i + 1;
        }
        assert(suit_cards(suit).take(13) =~= suit_cards(suit));
        s = s + 1;
    }
    proof {
        reveal_with_fuel(deck_prefix, 4);
        assert(deck_prefix(3) =~= full_deck());
    }
    ret
}

/// `rand::ThreadRng`, the handle to a thread's random number generator.
/// Nothing is known of what is inside: it is carried from `rand::thread_rng`
/// to `Rng::shuffle`.
#[verifier::external_type_specification]
#[verifier::external_body]
pub struct ExThreadRng(rand::ThreadRng);

/// `rand::thread_rng` hands out the calling thread's generator, seeded by
/// the system on first use. Nothing is claimed of the generator. (It gives
/// up with a panic on a system that has no source of entropy at all.)
pub assume_specification[ rand::thread_rng ]() -> (rng: rand::ThreadRng)
;

/// `Rng::shuffle` of `rand`, on the cards as a slice. It reorders the slice
/// in place by swapping pairs of its items, so the cards afterwards are the
/// cards before, each as often as before. Their order depends on the
/// generator and nothing is claimed of it.
#[verifier::external_body]
fn shuffle_cards(rng: &mut rand::ThreadRng, cards: &mut Vec<Card>)
    ensures
        final(cards)@.to_multiset() == old(cards)@.to_multiset(),
{
    rng.shuffle(cards.as_mut_slice());
}

/// Builds the deck and shuffles it.
pub fn make_shuffled_deck() -> (deck: Vec<Card>)
    ensures
        is_complete_deck(deck@),
        deck@.len() == 40,
{
    let mut ret = make_deck();
    let mut rng = rand::thread_rng();
    shuffle_cards(&mut rng, &mut ret);
    proof {
        vstd::seq_lib::to_multiset_len(ret@);
        vstd::seq_lib::to_multiset_len(full_deck());
    }
    ret
}

/// One suit's thirteen cards hold each rank from 1 to 9 of that suit once,
/// its dragon four times, and no other card.
proof fn lemma_suit_census(suit: Suit, card: Card)
    ensures
        suit_cards(suit).to_multiset().count(card) == match card {
            Card::Flower => 0nat,
            Card::Number(s, _) => if s == suit { copies_in_deck(card) } else { 0nat },
            Card::Dragon(s) => if s == suit { 4nat } else { 0nat },
        },
{
    broadcast use vstd::seq_lib::to_multiset_build;

    let numbers = Seq::<Card>::empty().push(Card::Number(suit, 1)).push(Card::Number(suit, 2)).push(
        Card::Number(suit, 3),
    ).push(Card::Number(suit, 4)).push(Card::Number(suit, 5)).push(Card::Number(suit, 6)).push(
        Card::Number(suit, 7),
    ).push(Card::Number(suit, 8)).push(Card::Number(suit, 9));
    let all = numbers.push(Card::Dragon(suit)).push(Card::Dragon(suit)).push(
        Card::Dragon(suit),
    ).push(Card::Dragon(suit));
    assert(Seq::<Card>::empty().to_multiset().count(card) == 0) by {
        vstd::seq_lib::to_multiset_len(Seq::<Card>::empty());
    }
    assert(numbers.to_multiset().count(card) == match card {
        Card::Number(s, _) => if s == suit { copies_in_deck(card) } else { 0nat },
        _ => 0nat,
    });
    assert(all =~= suit_cards(suit));
}

/// The numbered cards.
pub open spec fn numbers() -> spec_fn(Card) -> bool {
    |card: Card| card is Number
}

/// The dragons.
pub open spec fn dragons() -> spec_fn(Card) -> bool {
    |card: Card| card is Dragon
}

/// The flower.
pub open spec fn flowers() -> spec_fn(Card) -> bool {
    |card: Card| card is Flower
}

/// How many of the cards are of the given kind.
pub open spec fn count_of_kind(cards: Seq<Card>, kind: spec_fn(Card) -> bool) -> nat {
    cards.to_multiset().filter(kind).len()
}

/// How many of the first `upto` cards are of the given kind.
spec fn tally(cards: Seq<Card>, kind: spec_fn(Card) -> bool, upto: int) -> nat
    decreases upto,
{
    if upto <= 0 {
        0
    } else {
        tally(cards, kind, upto - 1) + if kind(cards[upto - 1]) {
            1nat
        } else {
            0nat
        }
    }
}

proof fn lemma_tally_counts(cards: Seq<Card>, kind: spec_fn(Card) -> bool, upto: int)
    requires
        0 <= upto <= cards.len(),
    ensures
        tally(cards, kind, upto) == count_of_kind(cards.take(upto), kind),
    decreases upto,
{
    broadcast use vstd::multiset::group_multiset_axioms;

    if upto == 0 {
        assert(cards.take(0).to_multiset() =~= Multiset::<Card>::empty()) by {
            vstd::seq_lib::to_multiset_len(cards.take(0));
        }
        assert(Multiset::<Card>::empty().filter(kind) =~= Multiset::<Card>::empty());
    } else {
        lemma_tally_counts(cards, kind, upto - 1);
        let before = cards.take(upto - 1);
        let card = cards[upto - 1];
        assert(cards.take(upto) =~= before.push(card));
        vstd::seq_lib::to_multiset_build(before, card);
        let held = before.to_multiset();
        if kind(card) {
            assert(held.insert(card).filter(kind) =~= held.filter(kind).insert(card));
        } else {
            assert(held.insert(card).filter(kind) =~= held.filter(kind));
        }
    }
}

proof fn lemma_kinds_of_both(first: Seq<Card>, second: Seq<Card>, kind: spec_fn(Card) -> bool)
    ensures
        count_of_kind(first + second, kind) == count_of_kind(first, kind) + count_of_kind(
            second,
            kind,
        ),
{
    broadcast use vstd::multiset::group_multiset_axioms;

    vstd::seq_lib::lemma_multiset_commutative(first, second);
    let a = first.to_multiset();
    let b = second.to_multiset();
    assert(a.add(b).filter(kind) =~= a.filter(kind).add(b.filter(kind)));
}

proof fn lemma_suit_kinds(suit: Suit)
    ensures
        count_of_kind(suit_cards(suit), flowers()) == 0,
        count_of_kind(suit_cards(suit), numbers()) == 9,
        count_of_kind(suit_cards(suit), dragons()) == 4,
{
    let cards = suit_cards(suit);
    assert(cards.take(13) =~= cards);
    lemma_tally_counts(cards, flowers(), 13);
    lemma_tally_counts(cards, numbers(), 13);
    lemma_tally_counts(cards, dragons(), 13);
    reveal_with_fuel(tally, 14);
}

proof fn lemma_flower_kinds()
    ensures
        count_of_kind(seq![Card::Flower], flowers()) == 1,
        count_of_kind(seq![Card::Flower], numbers()) == 0,
        count_of_kind(seq![Card::Flower], dragons()) == 0,
{
    let cards = seq![Card::Flower];
    assert(cards.take(1) =~= cards);
    lemma_tally_counts(cards, flowers(), 1);
    lemma_tally_counts(cards, numbers(), 1);
    lemma_tally_counts(cards, dragons(), 1);
    reveal_with_fuel(tally, 2);
}

proof fn lemma_full_deck_kinds(kind: spec_fn(Card) -> bool)
    ensures
        count_of_kind(full_deck(), kind) == count_of_kind(seq![Card::Flower], kind) + count_of_kind(
            suit_cards(Suit::Red),
            kind,
        ) + count_of_kind(suit_cards(Suit::Green), kind) + count_of_kind(
            suit_cards(Suit::Black),
            kind,
        ),
{
    let flower = seq![Card::Flower];
    let red = suit_cards(Suit::Red);
    let green = suit_cards(Suit::Green);
    let black = suit_cards(Suit::Black);
    lemma_kinds_of_both(flower + red + green, black, kind);
    lemma_kinds_of_both(flower + red, green, kind);
    lemma_kinds_of_both(flower, red, kind);
}

/// The census of the deck. A complete deck has exactly forty cards: the
/// flower once, every rank from 1 to 9 of every suit once (twenty-seven
/// numbered cards), every suit's dragon four times (twelve dragons), and no
/// card of any other rank.
pub proof fn lemma_deck_census(cards: Seq<Card>)
    requires
        is_complete_deck(cards),
    ensures
        cards.len() == 40,
        forall|card: Card| #[trigger] cards.to_multiset().count(card) == copies_in_deck(card),
        count_of_kind(cards, flowers()) == 1,
        count_of_kind(cards, numbers()) == 27,
        count_of_kind(cards, dragons()) == 12,
{
    lemma_full_deck_kinds(flowers());
    lemma_full_deck_kinds(numbers());
    lemma_full_deck_kinds(dragons());
    lemma_suit_kinds(Suit::Red);
    lemma_suit_kinds(Suit::Green);
    lemma_suit_kinds(Suit::Black);
    lemma_flower_kinds();
    vstd::seq_lib::to_multiset_len(cards);
    vstd::seq_lib::to_multiset_len(full_deck());
    assert forall|card: Card| #[trigger]
        full_deck().to_multiset().count(card) == copies_in_deck(card) by {
        let flower = seq![Card::Flower];
        let red = suit_cards(Suit::Red);
        let green = suit_cards(Suit::Green);
        let black = suit_cards(Suit::Black);
        lemma_suit_census(Suit::Red, card);
        lemma_suit_census(Suit::Green, card);
        lemma_suit_census(Suit::Black, card);
        vstd::seq_lib::lemma_multiset_commutative(flower + red + green, black);
        vstd::seq_lib::lemma_multiset_commutative(flower + red, green);
        vstd::seq_lib::lemma_multiset_commutative(flower, red);
        assert(flower.to_multiset().count(card) == if card is Flower { 1nat } else { 0nat }) by {
            broadcast use vstd::seq_lib::group_to_multiset_ensures;
            vstd::seq_lib::to_multiset_len(Seq::<Card>::empty());
        }
    }
}

} // verus!
