//! The cards in play: what the free cells and the columns hold together, and
//! how moves and flips change it.

use crate::cards::{Card, Suit};
use crate::dragons::{
    dragons_in_cells, dragons_on_columns, flipped, holds_dragon, lemma_highest_host, shows_dragon,
};
use crate::moves::{moved, picked_up, placed};
use crate::playfield::{Board, FreeCell, Move, Position};
use vstd::multiset::Multiset;
use vstd::prelude::*;

verus! {

/// The card that a free cell holds, as a multiset of one card or none.
pub open spec fn cell_cards(cell: FreeCell) -> Multiset<Card> {
    match cell {
        FreeCell::InUse(card) => Multiset::singleton(card),
        _ => Multiset::empty(),
    }
}

/// The cards in the first `upto` free cells.
pub open spec fn cards_in_cells(cells: Seq<FreeCell>, upto: int) -> Multiset<Card>
    decreases upto,
{
    if upto <= 0 {
        Multiset::empty()
    } else {
        cards_in_cells(cells, upto - 1).add(cell_cards(cells[upto - 1]))
    }
}

/// The cards in the first `upto` columns, covered ones too.
pub open spec fn cards_in_columns(tableau: Seq<Seq<Card>>, upto: int) -> Multiset<Card>
    decreases upto,
{
    if upto <= 0 {
        Multiset::empty()
    } else {
        cards_in_columns(tableau, upto - 1).add(tableau[upto - 1].to_multiset())
    }
}

/// The cards in play: those in the free cells and in the columns. A card
/// that went to the flower slot or to a pile, or a dragon that was flipped,
/// is out of play.
pub open spec fn cards_in_play(board: Board) -> Multiset<Card> {
    cards_in_cells(board.freecells, 3).add(cards_in_columns(board.tableau, 8))
}

proof fn lemma_cell_changed(cells: Seq<FreeCell>, at: int, cell: FreeCell, upto: int)
    requires
        0 <= at < cells.len(),
        0 <= upto <= cells.len(),
    ensures
        at < upto ==> cards_in_cells(cells.update(at, cell), upto).add(cell_cards(cells[at]))
            == cards_in_cells(cells, upto).add(cell_cards(cell)),
        at >= upto ==> cards_in_cells(cells.update(at, cell), upto) == cards_in_cells(cells, upto),
    decreases upto,
{
    broadcast use vstd::multiset::group_multiset_axioms;

    if upto > 0 {
        lemma_cell_changed(cells, at, cell, upto - 1);
        if at < upto - 1 {
            let before = cards_in_cells(cells.update(at, cell), upto - 1).add(cell_cards(cells[at]));
            let after = cards_in_cells(cells, upto - 1).add(cell_cards(cell));
            assert forall|card: Card|
                cards_in_cells(cells.update(at, cell), upto).add(cell_cards(cells[at])).count(card)
                    == cards_in_cells(cells, upto).add(cell_cards(cell)).count(card) by {
                assert(before.count(card) == after.count(card));
            }
        }
        if at < upto {
            assert(cards_in_cells(cells.update(at, cell), upto).add(cell_cards(cells[at]))
                =~= cards_in_cells(cells, upto).add(cell_cards(cell)));
        }
    }
}

proof fn lemma_column_changed(tableau: Seq<Seq<Card>>, at: int, column: Seq<Card>, upto: int)
    requires
        0 <= at < tableau.len(),
        0 <= upto <= tableau.len(),
    ensures
        at < upto ==> cards_in_columns(tableau.update(at, column), upto).add(
            tableau[at].to_multiset(),
        ) == cards_in_columns(tableau, upto).add(column.to_multiset()),
        at >= upto ==> cards_in_columns(tableau.update(at, column), upto) == cards_in_columns(
            tableau,
            upto,
        ),
    decreases upto,
{
    broadcast use vstd::multiset::group_multiset_axioms;

    if upto > 0 {
        lemma_column_changed(tableau, at, column, upto - 1);
        if at < upto - 1 {
            let before = cards_in_columns(tableau.update(at, column), upto - 1).add(
                tableau[at].to_multiset(),
            );
            let after = cards_in_columns(tableau, upto - 1).add(column.to_multiset());
            assert forall|card: Card|
                cards_in_columns(tableau.update(at, column), upto).add(
                    tableau[at].to_multiset(),
                ).count(card) == cards_in_columns(tableau, upto).add(column.to_multiset()).count(
                    card,
                ) by {
                assert(before.count(card) == after.count(card));
            }
        }
        if at < upto {
            assert(cards_in_columns(tableau.update(at, column), upto).add(tableau[at].to_multiset())
                =~= cards_in_columns(tableau, upto).add(column.to_multiset()));
        }
    }
}

/// A pick-up takes the run out of play and nothing else: the cards in play
/// before are those in play after together with the run.
pub proof fn lemma_pick_up_takes_the_run(board: Board, count: nat, from: Position)
    requires
        board.well_formed(),
        from.in_range(),
        picked_up(board, count, from) is Some,
    ensures
        cards_in_play(board) == cards_in_play(picked_up(board, count, from)->Some_0.0).add(
            picked_up(board, count, from)->Some_0.1.to_multiset(),
        ),
{
    broadcast use vstd::multiset::group_multiset_axioms;

    let (left, run) = picked_up(board, count, from)->Some_0;
    match from {
        Position::FreeCell(i) => {
            lemma_cell_changed(board.freecells, i as int, FreeCell::Free, 3);
            assert(run.to_multiset() =~= cell_cards(board.freecells[i as int])) by {
                vstd::seq_lib::to_multiset_build(Seq::<Card>::empty(), run[0]);
                vstd::seq_lib::to_multiset_len(Seq::<Card>::empty());
                assert(run =~= Seq::<Card>::empty().push(run[0]));
            }
            let was = cards_in_cells(left.freecells, 3).add(cell_cards(board.freecells[i as int]));
            let is = cards_in_cells(board.freecells, 3).add(cell_cards(FreeCell::Free));
            assert forall|card: Card|
                cards_in_play(board).count(card) == cards_in_play(left).add(
                    run.to_multiset(),
                ).count(card) by {
                assert(was.count(card) == is.count(card));
            }
            assert(cards_in_play(board) =~= cards_in_play(left).add(run.to_multiset()));
        },
        Position::Tableau(i) => {
            let column = board.tableau[i as int];
            let kept = column.subrange(0, column.len() - count);
            lemma_column_changed(board.tableau, i as int, kept, 8);
            assert(column =~= kept + run);
            vstd::seq_lib::lemma_multiset_commutative(kept, run);
            let was = cards_in_columns(left.tableau, 8).add(column.to_multiset());
            let is = cards_in_columns(board.tableau, 8).add(kept.to_multiset());
            assert forall|card: Card|
                cards_in_play(board).count(card) == cards_in_play(left).add(
                    run.to_multiset(),
                ).count(card) by {
                assert(was.count(card) == is.count(card));
            }
            assert(cards_in_play(board) =~= cards_in_play(left).add(run.to_multiset()));
        },
        _ => {},
    }
}

/// Placing at a free cell or on a column brings the run into play. Placing
/// at the flower slot or on a pile leaves the cards in play as they are.
pub proof fn lemma_place_brings_the_run(board: Board, run: Seq<Card>, to: Position)
    requires
        board.well_formed(),
        to.in_range(),
        placed(board, run, to) is Some,
    ensures
        to is FreeCell || to is Tableau ==> cards_in_play(placed(board, run, to)->Some_0)
            == cards_in_play(board).add(run.to_multiset()),
        to is Flower || to is Pile ==> cards_in_play(placed(board, run, to)->Some_0)
            == cards_in_play(board),
{
    broadcast use vstd::multiset::group_multiset_axioms;

    let after = placed(board, run, to)->Some_0;
    match to {
        Position::FreeCell(i) => {
            lemma_cell_changed(board.freecells, i as int, FreeCell::InUse(run[0]), 3);
            assert(run.to_multiset() =~= Multiset::singleton(run[0])) by {
                vstd::seq_lib::to_multiset_build(Seq::<Card>::empty(), run[0]);
                vstd::seq_lib::to_multiset_len(Seq::<Card>::empty());
                assert(run =~= Seq::<Card>::empty().push(run[0]));
            }
            let was = cards_in_cells(after.freecells, 3).add(cell_cards(board.freecells[i as int]));
            let is = cards_in_cells(board.freecells, 3).add(cell_cards(FreeCell::InUse(run[0])));
            assert forall|card: Card|
                cards_in_play(after).count(card) == cards_in_play(board).add(
                    run.to_multiset(),
                ).count(card) by {
                assert(was.count(card) == is.count(card));
            }
            assert(cards_in_play(after) =~= cards_in_play(board).add(run.to_multiset()));
        },
        Position::Tableau(i) => {
            let column = board.tableau[i as int];
            lemma_column_changed(board.tableau, i as int, column + run, 8);
            vstd::seq_lib::lemma_multiset_commutative(column, run);
            let was = cards_in_columns(after.tableau, 8).add(column.to_multiset());
            let is = cards_in_columns(board.tableau, 8).add((column + run).to_multiset());
            assert forall|card: Card|
                cards_in_play(after).count(card) == cards_in_play(board).add(
                    run.to_multiset(),
                ).count(card) by {
                assert(was.count(card) == is.count(card));
            }
            assert(cards_in_play(after) =~= cards_in_play(board).add(run.to_multiset()));
        },
        _ => {},
    }
}

/// Conservation of cards. A move between free cells and columns keeps the
/// cards in play exactly as they were. A move to the flower slot or to a
/// pile takes the one card it moves out of play, and no other.
pub proof fn lemma_move_conserves_cards(board: Board, m: Move)
    requires
        board.well_formed(),
        m.valid(),
        moved(board, m) is Some,
    ensures
        m.2 is FreeCell || m.2 is Tableau ==> cards_in_play(moved(board, m)->Some_0)
            == cards_in_play(board),
        m.2 is Flower || m.2 is Pile ==> cards_in_play(board) == cards_in_play(
            moved(board, m)->Some_0,
        ).add(picked_up(board, m.0 as nat, m.1)->Some_0.1.to_multiset()),
{
    let (left, run) = picked_up(board, m.0 as nat, m.1)->Some_0;
    lemma_pick_up_takes_the_run(board, m.0 as nat, m.1);
    lemma_place_brings_the_run(left, run, m.2);
}

proof fn lemma_cells_give_up_dragons(
    before: Seq<FreeCell>,
    after: Seq<FreeCell>,
    suit: Suit,
    card: Card,
    upto: int,
)
    requires
        0 <= upto <= before.len(),
        before.len() == after.len(),
        forall|i: int|
            0 <= i < upto ==> cell_cards(#[trigger] after[i]) == if holds_dragon(before[i], suit) {
                Multiset::empty()
            } else {
                cell_cards(before[i])
            },
    ensures
        cards_in_cells(before, upto).count(card) == cards_in_cells(after, upto).count(card)
            + if card == Card::Dragon(suit) {
            dragons_in_cells(before, suit, upto)
        } else {
            0nat
        },
    decreases upto,
{
    broadcast use vstd::multiset::group_multiset_axioms;

    if upto > 0 {
        lemma_cells_give_up_dragons(before, after, suit, card, upto - 1);
        assert(cell_cards(after[upto - 1]) == if holds_dragon(before[upto - 1], suit) {
            Multiset::empty()
        } else {
            cell_cards(before[upto - 1])
        });
    }
}

proof fn lemma_columns_give_up_dragons(
    before: Seq<Seq<Card>>,
    after: Seq<Seq<Card>>,
    suit: Suit,
    card: Card,
    upto: int,
)
    requires
        0 <= upto <= before.len(),
        before.len() == after.len(),
        forall|i: int|
            0 <= i < upto ==> #[trigger] after[i] == if shows_dragon(before[i], suit) {
                before[i].drop_last()
            } else {
                before[i]
            },
    ensures
        cards_in_columns(before, upto).count(card) == cards_in_columns(after, upto).count(card)
            + if card == Card::Dragon(suit) {
            dragons_on_columns(before, suit, upto)
        } else {
            0nat
        },
    decreases upto,
{
    broadcast use vstd::multiset::group_multiset_axioms;

    if upto > 0 {
        lemma_columns_give_up_dragons(before, after, suit, card, upto - 1);
        let column = before[upto - 1];
        assert(after[upto - 1] == if shows_dragon(column, suit) {
            column.drop_last()
        } else {
            column
        });
        if shows_dragon(column, suit) {
            assert(column =~= column.drop_last().push(Card::Dragon(suit)));
            vstd::seq_lib::to_multiset_build(column.drop_last(), Card::Dragon(suit));
        }
    }
}

/// A flip takes four dragons of its suit out of play and no other card:
/// every other card is in play as often as before.
pub proof fn lemma_flip_takes_four_dragons(board: Board, suit: Suit)
    requires
        board.well_formed(),
        flipped(board, suit) is Some,
    ensures
        forall|card: Card|
            cards_in_play(board).count(card) == #[trigger] cards_in_play(
                flipped(board, suit)->Some_0,
            ).count(card) + if card == Card::Dragon(suit) {
                4nat
            } else {
                0nat
            },
{
    broadcast use vstd::multiset::group_multiset_axioms;

    let after = flipped(board, suit)->Some_0;
    lemma_highest_host(board.freecells, suit, 3);
    assert forall|card: Card|
        cards_in_play(board).count(card) == #[trigger] cards_in_play(after).count(card)
            + if card == Card::Dragon(suit) {
            4nat
        } else {
            0nat
        } by {
        lemma_cells_give_up_dragons(board.freecells, after.freecells, suit, card, 3);
        lemma_columns_give_up_dragons(board.tableau, after.tableau, suit, card, 8);
    }
}

} // verus!
