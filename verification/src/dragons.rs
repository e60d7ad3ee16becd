//! The dragon flip: once all four dragons of a suit show, they leave the
//! game and one free cell is locked.

use crate::cards::{Card, Suit};
use crate::playfield::{Board, FreeCell, Playfield, Rejected};
use vstd::prelude::*;

verus! {

/// The cell holds a dragon of the suit.
pub open spec fn holds_dragon(cell: FreeCell, suit: Suit) -> bool {
    cell == FreeCell::InUse(Card::Dragon(suit))
}

/// The cell can be locked by a flip of the suit: it is free, or it holds one
/// of the dragons that the flip takes away.
pub open spec fn can_host(cell: FreeCell, suit: Suit) -> bool {
    cell is Free || holds_dragon(cell, suit)
}

/// The column's top card is a dragon of the suit.
pub open spec fn shows_dragon(column: Seq<Card>, suit: Suit) -> bool {
    column.len() > 0 && column.last() == Card::Dragon(suit)
}

/// How many of the first `upto` cells hold a dragon of the suit.
pub open spec fn dragons_in_cells(cells: Seq<FreeCell>, suit: Suit, upto: int) -> nat
    decreases upto,
{
    if upto <= 0 {
        0
    } else {
        dragons_in_cells(cells, suit, upto - 1) + if holds_dragon(cells[upto - 1], suit) {
            1nat
        } else {
            0nat
        }
    }
}

/// How many of the first `upto` columns show a dragon of the suit on top.
pub open spec fn dragons_on_columns(tableau: Seq<Seq<Card>>, suit: Suit, upto: int) -> nat
    decreases upto,
{
    if upto <= 0 {
        0
    } else {
        dragons_on_columns(tableau, suit, upto - 1) + if shows_dragon(tableau[upto - 1], suit) {
            1nat
        } else {
            0nat
        }
    }
}

/// How many dragons of the suit show: in the free cells and on top of the
/// columns. A dragon under another card does not show.
pub open spec fn exposed_dragons(board: Board, suit: Suit) -> nat {
    dragons_in_cells(board.freecells, suit, 3) + dragons_on_columns(board.tableau, suit, 8)
}

/// The highest of the first `upto` cells that can be locked, if any.
pub open spec fn highest_host(cells: Seq<FreeCell>, suit: Suit, upto: int) -> Option<int>
    decreases upto,
{
    if upto <= 0 {
        None
    } else if can_host(cells[upto - 1], suit) {
        Some(upto - 1)
    } else {
        highest_host(cells, suit, upto - 1)
    }
}

/// The result of flipping the dragons of `suit`, or nothing where the rules
/// refuse.
///
/// The flip is made when exactly four dragons of the suit show and some free
/// cell can be locked. Then every cell that held one of them is free, every
/// column that showed one has lost its top card, and the highest cell that
/// could be locked is flipped.
pub open spec fn flipped(board: Board, suit: Suit) -> Option<Board> {
    match highest_host(board.freecells, suit, 3) {
        Some(target) => if exposed_dragons(board, suit) == 4 {
            Some(
                Board {
                    freecells: Seq::new(
                        3,
                        |i: int|
                            if i == target {
                                FreeCell::Flipped
                            } else if holds_dragon(board.freecells[i], suit) {
                                FreeCell::Free
                            } else {
                                board.freecells[i]
                            },
                    ),
                    tableau: Seq::new(
                        8,
                        |i: int|
                            if shows_dragon(board.tableau[i], suit) {
                                board.tableau[i].drop_last()
                            } else {
                                board.tableau[i]
                            },
                    ),
                    ..board
                },
            )
        } else {
            None
        },
        None => None,
    }
}

/// Flips the dragons of `suit`: returns the board without them and with one
/// free cell locked, or `None` where the rules do not permit the flip.
pub fn flip_dragon(playfield: Playfield, suit: Suit) -> (res: Option<Playfield>)
    ensures
        match res {
            Some(after) => flipped(playfield@, suit) == Some(after@),
            None => flipped(playfield@, suit) is None,
        },
{
    let mut new_pf: Playfield = playfield;
    let mut dst: Option<usize> = None;
    let mut count: usize = 0;
    let mut i: usize = 0;
    while i < 3
        invariant
            i <= 3,
            count == dragons_in_cells(playfield@.freecells, suit, i as int),
            count <= i,
            dst matches Some(d) ==> d < i,
            match dst {
                Some(d) => highest_host(playfield@.freecells, suit, i as int) == Some(d as int),
                None => highest_host(playfield@.freecells, suit, i as int) is None,
            },
            forall|j: int|
                0 <= j < i ==> #[trigger] new_pf.freecells@[j] == if holds_dragon(
                    playfield.freecells@[j],
                    suit,
                ) {
                    FreeCell::Free
                } else {
                    playfield.freecells@[j]
                },
            forall|j: int| i <= j < 3 ==> #[trigger] new_pf.freecells@[j] == playfield.freecells@[j],
            new_pf.tableau == playfield.tableau,
            new_pf.flower == playfield.flower,
            new_pf.piles == playfield.piles,
        decreases 3 - i,
    {
        match new_pf.freecells[i] {
            FreeCell::InUse(Card::Dragon(s)) => {
                if s == suit {
                    new_pf.freecells[i] = FreeCell::Free;
                    count = count + 1;
                    dst = Some(i);
                }
            },
            FreeCell::Free => {
                dst = Some(i);
            },
            _ => {},
        }
        i = i + 1;
    }
    let ghost cells = new_pf.freecells@;
    let mut i: usize = 0;
    while i < 8
        invariant
            i <= 8,
            count == dragons_in_cells(playfield@.freecells, suit, 3) + dragons_on_columns(
                playfield@.tableau,
                suit,
                i as int,
            ),
            count <= 3 + i,
            dst matches Some(d) ==> d < 3,
            match dst {
                Some(d) => highest_host(playfield@.freecells, suit, 3) == Some(d as int),
                None => highest_host(playfield@.freecells, suit, 3) is None,
            },
            new_pf.freecells@ == cells,
            forall|j: int|
                0 <= j < i ==> (#[trigger] new_pf.tableau@[j])@ == if shows_dragon(
                    playfield.tableau@[j]@,
                    suit,
                ) {
                    playfield.tableau@[j]@.drop_last()
                } else {
                    playfield.tableau@[j]@
                },
            forall|j: int| i <= j < 8 ==> (#[trigger] new_pf.tableau@[j])@ == playfield.tableau@[j]@,
            new_pf.flower == playfield.flower,
            new_pf.piles == playfield.piles,
        decreases 8 - i,
    {
        let height = new_pf.tableau[i].len();
        if height > 0 {
            match new_pf.tableau[i][height - 1] {
                Card::Dragon(s) => {
                    if s == suit {
                        new_pf.tableau[i].pop();
                        count = count + 1;
                    }
                },
                _ => {},
            }
        }
        i = i + 1;
    }
    match dst {
        Some(d) => {
            if count != 4 {
                return None;
            }
            new_pf.freecells[d] = FreeCell::Flipped;
            proof {
                let after = flipped(playfield@, suit)->Some_0;
                assert(new_pf@.freecells =~= after.freecells);
                assert(new_pf@.tableau =~= after.tableau);
            }
            Some(new_pf)
        },
        None => None,
    }
}

/// Flips the dragons of `suit`, all of it or nothing: `Ok` with the new
/// board where the rules permit the flip, else `Err` with the board as it
/// was handed in, no cell freed and no column shortened.
pub fn apply_flip(playfield: Playfield, suit: Suit) -> (res: Result<Playfield, Rejected>)
    ensures
        match res {
            Ok(after) => flipped(playfield@, suit) == Some(after@),
            Err(rejected) => flipped(playfield@, suit) is None && rejected.0@ == playfield@,
        },
{
    match flip_dragon(playfield.clone(), suit) {
        Some(after) => Ok(after),
        None => Err(Rejected(playfield)),
    }
}

/// The tie-break of the flip: its target is a cell that can be locked, and
/// no cell above it can. Where there is no target, no cell can be locked.
pub proof fn lemma_highest_host(cells: Seq<FreeCell>, suit: Suit, upto: int)
    ensures
        match highest_host(cells, suit, upto) {
            Some(target) => {
                &&& 0 <= target < upto
                &&& can_host(cells[target], suit)
                &&& forall|j: int| target < j < upto ==> !can_host(#[trigger] cells[j], suit)
            },
            None => forall|j: int| 0 <= j < upto ==> !can_host(#[trigger] cells[j], suit),
        },
    decreases upto,
{
    if upto > 0 && !can_host(cells[upto - 1], suit) {
        lemma_highest_host(cells, suit, upto - 1);
    }
}

/// When the flip is made: exactly when four dragons of the suit show and at
/// least one free cell is free or holds one of them. So three showing
/// dragons with the fourth under another card give no flip, and neither do
/// four showing dragons while every free cell is flipped or holds another
/// card.
pub proof fn lemma_flip_made_iff(board: Board, suit: Suit)
    requires
        board.well_formed(),
    ensures
        flipped(board, suit) is Some <==> (exposed_dragons(board, suit) == 4 && exists|i: int|
            0 <= i < 3 && can_host(#[trigger] board.freecells[i], suit)),
{
    lemma_highest_host(board.freecells, suit, 3);
}

/// How many of the first `upto` cells are flipped.
pub open spec fn flipped_cells(cells: Seq<FreeCell>, upto: int) -> nat
    decreases upto,
{
    if upto <= 0 {
        0
    } else {
        flipped_cells(cells, upto - 1) + if cells[upto - 1] is Flipped {
            1nat
        } else {
            0nat
        }
    }
}

/// A flip that is made leaves no dragon of the suit in a free cell and
/// flips exactly one free cell, one that was free or held one of the
/// dragons. Every cell that was flipped before stays flipped, and the flower
/// slot and the piles stay as they are.
pub proof fn lemma_flip_locks_one_cell(board: Board, suit: Suit)
    requires
        board.well_formed(),
        flipped(board, suit) is Some,
    ensures
        forall|i: int|
            0 <= i < 3 ==> !holds_dragon(#[trigger] flipped(board, suit)->Some_0.freecells[i], suit),
        flipped_cells(flipped(board, suit)->Some_0.freecells, 3) == flipped_cells(
            board.freecells,
            3,
        ) + 1,
        forall|i: int|
            0 <= i < 3 && board.freecells[i] is Flipped ==> #[trigger] flipped(
                board,
                suit,
            )->Some_0.freecells[i] is Flipped,
        flipped(board, suit)->Some_0.flower == board.flower,
        flipped(board, suit)->Some_0.piles == board.piles,
{
    lemma_highest_host(board.freecells, suit, 3);
    reveal_with_fuel(flipped_cells, 4);
}

/// A flip keeps an orderly board orderly.
pub proof fn lemma_flip_keeps_board_orderly(board: Board, suit: Suit)
    requires
        board.orderly(),
        flipped(board, suit) is Some,
    ensures
        flipped(board, suit)->Some_0.orderly(),
{
}

} // verus!
