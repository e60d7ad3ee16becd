//! The board: free cells, flower slot, discard piles and tableau columns,
//! with the mathematical model that the rules are stated over.

use crate::cards::Card;
use crate::deck::{is_complete_deck, make_shuffled_deck};
use vstd::prelude::*;

verus! {

/// A free cell: empty, holding one card, or locked by a dragon flip. A
/// flipped cell stays flipped: nothing is placed on it or taken from it.
#[derive(Debug, PartialEq, Eq, Copy, Clone, Structural)]
pub enum FreeCell {
    Free,
    InUse(Card),
    Flipped,
}

/// The state of a game.
#[derive(Debug, PartialEq, Eq)]
pub struct Playfield {
    pub freecells: [FreeCell; 3],
    /// Empty, or the flower.
    pub flower: Option<Card>,
    /// The topmost card of each discard pile.
    pub piles: [Option<Card>; 3],
    /// The columns of the tableau, each a stack whose top is its last card.
    pub tableau: [Vec<Card>; 8],
}

/// The mathematical model of a `Playfield`.
pub struct Board {
    pub freecells: Seq<FreeCell>,
    pub flower: Option<Card>,
    pub piles: Seq<Option<Card>>,
    pub tableau: Seq<Seq<Card>>,
}

impl Board {
    /// A board has three free cells, three piles and eight columns.
    pub open spec fn well_formed(self) -> bool {
        &&& self.freecells.len() == 3
        &&& self.piles.len() == 3
        &&& self.tableau.len() == 8
    }

    /// An orderly board is well formed, its flower slot holds nothing or the
    /// flower, and each pile shows nothing or a numbered card.
    pub open spec fn orderly(self) -> bool {
        &&& self.well_formed()
        &&& (self.flower is None || self.flower == Some(Card::Flower))
        &&& forall|i: int|
            0 <= i < 3 ==> (#[trigger] self.piles[i] matches Some(card) ==> card is Number)
    }

    /// The card that shows at `pos`: the card in a free cell in use, the
    /// flower once placed, the top of a pile, the top of a column. Nothing
    /// shows at an empty or flipped cell, an empty slot, pile or column, or
    /// at a position that is not on the board.
    pub open spec fn card_at(self, pos: Position) -> Option<Card> {
        match pos {
            Position::FreeCell(i) => if i < 3 {
                match self.freecells[i as int] {
                    FreeCell::InUse(card) => Some(card),
                    _ => None,
                }
            } else {
                None
            },
            Position::Flower => self.flower,
            Position::Pile(i) => if i < 3 {
                self.piles[i as int]
            } else {
                None
            },
            Position::Tableau(i) => if i < 8 && self.tableau[i as int].len() > 0 {
                Some(self.tableau[i as int].last())
            } else {
                None
            },
        }
    }
}

impl View for Playfield {
    type V = Board;

    open spec fn view(&self) -> Board {
        Board {
            freecells: self.freecells@,
            flower: self.flower,
            piles: self.piles@,
            tableau: Seq::new(8, |i: int| self.tableau@[i]@),
        }
    }
}

impl Clone for Playfield {
    fn clone(&self) -> (res: Playfield)
        ensures
            res@ == self@,
    {
        let mut tmp: [Vec<Card>; 8] = [
            Vec::new(),
            Vec::new(),
            Vec::new(),
            Vec::new(),
            Vec::new(),
            Vec::new(),
            Vec::new(),
            Vec::new(),
        ];
        let mut i: usize = 0;
        while i < 8
            invariant
                i <= 8,
                forall|j: int| 0 <= j < i ==> (#[trigger] tmp@[j])@ == self.tableau@[j]@,
            decreases 8 - i,
        {
            let column = self.tableau[i].clone();
            assert(column@ =~= self.tableau@[i as int]@);
            tmp[i] = column;
            i = i + 1;
        }
        let res = Playfield {
            freecells: self.freecells,
            flower: self.flower,
            piles: self.piles,
            tableau: tmp,
        };
        assert(res@.tableau =~= self@.tableau);
        res
    }
}

/// A place on the board. A free cell or a pile is named by an index from 0
/// to 2, a tableau column by one from 0 to 7.
#[derive(Debug, PartialEq, Eq, Copy, Clone, Structural)]
pub enum Position {
    FreeCell(usize),
    Flower,
    Pile(usize),
    Tableau(usize),
}

impl Position {
    /// Whether the position is on the board.
    pub open spec fn in_range(self) -> bool {
        match self {
            Position::FreeCell(i) => i < 3,
            Position::Flower => true,
            Position::Pile(i) => i < 3,
            Position::Tableau(i) => i < 8,
        }
    }
}

impl Position {
    /// Tells whether the position is on the board.
    pub fn is_in_range(&self) -> (ok: bool)
        ensures
            ok == self.in_range(),
    {
        match *self {
            Position::FreeCell(i) => i < 3,
            Position::Flower => true,
            Position::Pile(i) => i < 3,
            Position::Tableau(i) => i < 8,
        }
    }
}

/// A move takes a number of cards from one position to another, as one unit.
#[derive(Debug, PartialEq, Eq, Copy, Clone, Structural)]
pub struct Move(pub usize, pub Position, pub Position);

impl Move {
    /// A move asks for at least one card, between positions on the board.
    pub open spec fn valid(self) -> bool {
        &&& self.0 > 0
        &&& self.1.in_range()
        &&& self.2.in_range()
    }
}

impl Move {
    /// Tells whether the move asks for at least one card, between positions
    /// on the board.
    pub fn is_valid(&self) -> (ok: bool)
        ensures
            ok == self.valid(),
    {
        self.0 > 0 && self.1.is_in_range() && self.2.is_in_range()
    }
}

/// A refused move or flip. It hands back the board that it was tried on,
/// as it was.
#[derive(Debug, PartialEq, Eq)]
pub struct Rejected(pub Playfield);

/// The card that shows at `pos`, if any.
pub fn card_at(playfield: &Playfield, pos: Position) -> (shown: Option<Card>)
    ensures
        shown == playfield@.card_at(pos),
{
    match pos {
        Position::FreeCell(i) => {
            if i < 3 {
                match playfield.freecells[i] {
                    FreeCell::InUse(card) => Some(card),
                    _ => None,
                }
            } else {
                None
            }
        },
        Position::Flower => playfield.flower,
        Position::Pile(i) => {
            if i < 3 {
                playfield.piles[i]
            } else {
                None
            }
        },
        Position::Tableau(i) => {
            if i < 8 && playfield.tableau[i].len() > 0 {
                let column = &playfield.tableau[i];
                Some(column[column.len() - 1])
            } else {
                None
            }
        },
    }
}

/// The opening board for a deck of forty cards: card `8 * row + col` of the
/// deck lies in row `row` of column `col`, five rows to a column, and all
/// free cells, the flower slot and the piles are empty.
pub open spec fn dealt(deck: Seq<Card>) -> Board {
    Board {
        freecells: Seq::new(3, |i: int| FreeCell::Free),
        flower: None,
        piles: Seq::new(3, |i: int| None),
        tableau: Seq::new(8, |col: int| Seq::new(5, |row: int| deck[8 * row + col])),
    }
}

/// Every `Playfield` is a well-formed board.
pub proof fn lemma_playfield_well_formed(playfield: Playfield)
    ensures
        playfield@.well_formed(),
{
}

/// The opening board is orderly, every column holds five cards, and each
/// card of the deck lies at exactly one place of the tableau.
pub proof fn lemma_dealt_board(deck: Seq<Card>)
    requires
        deck.len() == 40,
    ensures
        dealt(deck).orderly(),
        forall|col: int| 0 <= col < 8 ==> (#[trigger] dealt(deck).tableau[col]).len() == 5,
        forall|i: int| 0 <= i < 40 ==> #[trigger] deck[i] == dealt(deck).tableau[i % 8][i / 8],
        forall|col: int, row: int|
            0 <= col < 8 && 0 <= row < 5 ==> #[trigger] dealt(deck).tableau[col][row] == deck[8
                * row + col],
{
    assert forall|i: int| 0 <= i < 40 implies #[trigger] deck[i] == dealt(deck).tableau[i % 8][i
        / 8] by {
        assert(8 * (i / 8) + i % 8 == i);
        assert(0 <= i / 8 < 5);
    }
}

/// Deals a deck of forty cards onto an empty board.
pub fn deal(deck: &Vec<Card>) -> (playfield: Playfield)
    requires
        deck@.len() == 40,
    ensures
        playfield@ == dealt(deck@),
{
    let mut ret = Playfield {
        freecells: [FreeCell::Free, FreeCell::Free, FreeCell::Free],
        flower: None,
        piles: [None, None, None],
        tableau: [
            Vec::new(),
            Vec::new(),
            Vec::new(),
            Vec::new(),
            Vec::new(),
            Vec::new(),
            Vec::new(),
            Vec::new(),
        ],
    };
    let mut col: usize = 0;
    while col < 8
        invariant
            col <= 8,
            deck@.len() == 40,
            ret@.freecells == dealt(deck@).freecells,
            ret@.flower == dealt(deck@).flower,
            ret@.piles == dealt(deck@).piles,
            forall|c: int| 0 <= c < col ==> (#[trigger] ret.tableau@[c])@ == dealt(deck@).tableau[c],
            forall|c: int| col <= c < 8 ==> (#[trigger] ret.tableau@[c])@.len() == 0,
        decreases 8 - col,
    {
        let mut row: usize = 0;
        while row < 5
            invariant
                row <= 5,
                col < 8,
                deck@.len() == 40,
                ret@.freecells == dealt(deck@).freecells,
                ret@.flower == dealt(deck@).flower,
                ret@.piles == dealt(deck@).piles,
                forall|c: int|
                    0 <= c < col ==> (#[trigger] ret.tableau@[c])@ == dealt(deck@).tableau[c],
                forall|c: int| col < c < 8 ==> (#[trigger] ret.tableau@[c])@.len() == 0,
                ret.tableau@[col as int]@ == dealt(deck@).tableau[col as int].take(row as int),
            decreases 5 - row,
        {
            ret.tableau[col].push(deck[8 * row + col]);
            assert(ret.tableau@[col as int]@ =~= dealt(deck@).tableau[col as int].take(
                row as int + 1,
            ));
            row = row + 1;
        }
        assert(ret.tableau@[col as int]@ =~= dealt(deck@).tableau[col as int]);
        col = col + 1;
    }
    assert(ret@.tableau =~= dealt(deck@).tableau) by {
        assert forall|c: int| 0 <= c < 8 implies ret@.tableau[c] == dealt(deck@).tableau[c] by {
            assert(ret.tableau@[c]@ == dealt(deck@).tableau[c]);
        }
    }
    ret
}

/// Creates a shuffled, initial state of the game: a complete deck in some
/// order, dealt.
pub fn make_shuffled_playfield() -> (playfield: Playfield)
    ensures
        exists|deck: Seq<Card>| is_complete_deck(deck) && playfield@ == dealt(deck),
{
    let deck = make_shuffled_deck();
    deal(&deck)
}

} // verus!
