//! Moves: picking a run of cards up, placing it, and the two as one step.

use crate::cards::{can_place_on_top, coherent, stacks_on, Card};
use crate::playfield::{Board, FreeCell, Move, Playfield, Position, Rejected};
use vstd::prelude::*;

verus! {

/// The result of picking `count` cards up from `from`: the board without
/// them, and the cards from bottom to top; or nothing where the rules refuse.
///
/// Nothing is ever picked up from the flower slot or from a pile. A free
/// cell gives up its one card when it holds one. A column gives up its top
/// `count` cards when it has that many and they form a coherent run.
pub open spec fn picked_up(board: Board, count: nat, from: Position) -> Option<(Board, Seq<Card>)> {
    match from {
        Position::Flower => None,
        Position::Pile(_) => None,
        Position::FreeCell(i) => match board.freecells[i as int] {
            FreeCell::InUse(card) => if count == 1 {
                Some(
                    (
                        Board {
                            freecells: board.freecells.update(i as int, FreeCell::Free),
                            ..board
                        },
                        seq![card],
                    ),
                )
            } else {
                None
            },
            _ => None,
        },
        Position::Tableau(i) => {
            let column = board.tableau[i as int];
            let kept = column.len() - count;
            if count <= column.len() && coherent(column.subrange(kept, column.len() as int)) {
                Some(
                    (
                        Board {
                            tableau: board.tableau.update(i as int, column.subrange(0, kept)),
                            ..board
                        },
                        column.subrange(kept, column.len() as int),
                    ),
                )
            } else {
                None
            }
        },
    }
}

/// Whether a pile showing `top` takes the numbered card `card`: the next
/// rank of the same suit on a numbered top, any numbered card otherwise.
pub open spec fn pile_takes(top: Option<Card>, card: Card) -> bool {
    match (top, card) {
        (Some(Card::Number(top_suit, top_rank)), Card::Number(suit, rank)) => {
            suit == top_suit && rank == top_rank + 1
        },
        (_, Card::Number(_, _)) => true,
        _ => false,
    }
}

/// The result of placing the run `run` (bottom first) at `to`: the board
/// with it, or nothing where the rules refuse.
///
/// A column takes a run of any length when it is empty or when the run's
/// bottom card rests on the column's top. The other places take one card
/// only: a free cell when it is free, the flower slot the flower, a pile a
/// numbered card that `pile_takes` admits.
pub open spec fn placed(board: Board, run: Seq<Card>, to: Position) -> Option<Board> {
    match to {
        Position::Tableau(i) => {
            let column = board.tableau[i as int];
            if column.len() == 0 || stacks_on(run[0], column.last()) {
                Some(Board { tableau: board.tableau.update(i as int, column + run), ..board })
            } else {
                None
            }
        },
        Position::FreeCell(i) => if run.len() == 1 && board.freecells[i as int] is Free {
            Some(
                Board {
                    freecells: board.freecells.update(i as int, FreeCell::InUse(run[0])),
                    ..board
                },
            )
        } else {
            None
        },
        Position::Flower => if run.len() == 1 && run[0] is Flower {
            Some(Board { flower: Some(run[0]), ..board })
        } else {
            None
        },
        Position::Pile(i) => if run.len() == 1 && pile_takes(board.piles[i as int], run[0]) {
            Some(Board { piles: board.piles.update(i as int, Some(run[0])), ..board })
        } else {
            None
        },
    }
}

/// The result of a whole move: the pick-up, then the placing of what was
/// picked up on the board that the pick-up left. Nothing where either half
/// is refused.
pub open spec fn moved(board: Board, m: Move) -> Option<Board> {
    match picked_up(board, m.0 as nat, m.1) {
        Some((lifted, run)) => placed(lifted, run, m.2),
        None => None,
    }
}

/// Picks up `count` cards from the position `from`. Returns the board with
/// the cards removed and the cards themselves, or `None` where the rules do
/// not permit this half-move.
pub fn pick_up_cards(playfield: Playfield, count: usize, from: Position) -> (res: Option<
    (Playfield, Vec<Card>),
>)
    requires
        count > 0,
        from.in_range(),
    ensures
        match res {
            Some((left, run)) => picked_up(playfield@, count as nat, from) == Some((left@, run@)),
            None => picked_up(playfield@, count as nat, from) is None,
        },
{
    let mut pf2: Playfield = playfield;
    match from {
        Position::Flower => None,
        Position::Pile(_) => None,
        Position::FreeCell(fi) => {
            match pf2.freecells[fi] {
                FreeCell::InUse(old_card) => {
                    if count == 1 {
                        pf2.freecells[fi] = FreeCell::Free;
                        let mut run: Vec<Card> = Vec::new();
                        run.push(old_card);
                        assert(run@ =~= seq![old_card]);
                        assert(pf2@.tableau =~= playfield@.tableau);
                        Some((pf2, run))
                    } else {
                        None
                    }
                },
                _ => None,
            }
        },
        Position::Tableau(ti) => {
            if count > pf2.tableau[ti].len() {
                return None;
            }
            let idx = pf2.tableau[ti].len() - count;
            let picked_up_cards = pf2.tableau[ti].split_off(idx);
            let mut i: usize = 1;
            while i < picked_up_cards.len()
                invariant
                    1 <= i <= picked_up_cards@.len(),
                    from == Position::Tableau(ti),
                    count <= playfield@.tableau[ti as int].len(),
                    picked_up_cards@ == playfield@.tableau[ti as int].subrange(
                        playfield@.tableau[ti as int].len() - count,
                        playfield@.tableau[ti as int].len() as int,
                    ),
                    forall|k: int|
                        0 < k < i ==> stacks_on(
                            #[trigger] picked_up_cards@[k],
                            picked_up_cards@[k - 1],
                        ),
                decreases picked_up_cards@.len() - i,
            {
                if !can_place_on_top(picked_up_cards[i], picked_up_cards[i - 1]) {
                    assert(!stacks_on(picked_up_cards@[i as int], picked_up_cards@[i - 1]));
                    return None;
                }
                i = i + 1;
            }
            assert(pf2@.tableau =~= playfield@.tableau.update(
                ti as int,
                playfield@.tableau[ti as int].subrange(0, idx as int),
            ));
            Some((pf2, picked_up_cards))
        },
    }
}

/// Places the cards in `new_cards` onto the position `to`. Returns the board
/// with the cards placed, or `None` where the rules do not permit this
/// half-move. The cards are taken to be a coherent run, as `pick_up_cards`
/// returns one; this is not tested again.
pub fn place_cards(playfield: Playfield, new_cards: Vec<Card>, to: Position) -> (res: Option<
    Playfield,
>)
    requires
        new_cards@.len() > 0,
        to.in_range(),
    ensures
        match res {
            Some(after) => placed(playfield@, new_cards@, to) == Some(after@),
            None => placed(playfield@, new_cards@, to) is None,
        },
{
    let mut new_pf: Playfield = playfield;
    let mut run = new_cards;
    let bottom_card = run[0];
    match to {
        Position::Tableau(ti) => {
            let height = new_pf.tableau[ti].len();
            let ok = height == 0 || can_place_on_top(bottom_card, new_pf.tableau[ti][height - 1]);
            if ok {
                new_pf.tableau[ti].append(&mut run);
                assert(new_pf@.tableau =~= playfield@.tableau.update(
                    ti as int,
                    playfield@.tableau[ti as int] + new_cards@,
                ));
                Some(new_pf)
            } else {
                None
            }
        },
        Position::FreeCell(fi) => {
            if run.len() != 1 {
                return None;
            }
            match new_pf.freecells[fi] {
                FreeCell::Free => {
                    new_pf.freecells[fi] = FreeCell::InUse(bottom_card);
                    assert(new_pf@.tableau =~= playfield@.tableau);
                    Some(new_pf)
                },
                _ => None,
            }
        },
        Position::Flower => {
            if run.len() != 1 {
                return None;
            }
            match bottom_card {
                Card::Flower => {
                    new_pf.flower = Some(bottom_card);
                    assert(new_pf@.tableau =~= playfield@.tableau);
                    Some(new_pf)
                },
                _ => None,
            }
        },
        Position::Pile(pi) => {
            if run.len() != 1 {
                return None;
            }
            match bottom_card {
                Card::Number(src_suit, src_number) => {
                    let ok = match new_pf.piles[pi] {
                        Some(Card::Number(dst_suit, dst_number)) => {
                            src_suit == dst_suit && dst_number < usize::MAX && src_number
                                == dst_number + 1
                        },
                        _ => true,
                    };
                    if ok {
                        new_pf.piles[pi] = Some(bottom_card);
                        assert(new_pf@.tableau =~= playfield@.tableau);
                        Some(new_pf)
                    } else {
                        None
                    }
                },
                _ => None,
            }
        },
    }
}

/// Whether the rules permit the move `m` on this board.
pub fn is_legal_move(playfield: &Playfield, m: Move) -> (legal: bool)
    requires
        m.valid(),
    ensures
        legal == moved(playfield@, m) is Some,
{
    let Move(count, from, to) = m;
    match pick_up_cards(playfield.clone(), count, from) {
        None => false,
        Some((new_pf, picked_up_cards)) => {
            match place_cards(new_pf, picked_up_cards, to) {
                Some(_) => true,
                None => false,
            }
        },
    }
}

/// Makes the move `m`, all of it or none: `Ok` with the new board where the
/// rules permit the move, else `Err` with the board as it was handed in. The
/// board between pick-up and placing is never handed out.
pub fn apply_move(playfield: Playfield, m: Move) -> (res: Result<Playfield, Rejected>)
    requires
        m.valid(),
    ensures
        match res {
            Ok(after) => moved(playfield@, m) == Some(after@),
            Err(rejected) => moved(playfield@, m) is None && rejected.0@ == playfield@,
        },
{
    let Move(count, from, to) = m;
    match pick_up_cards(playfield.clone(), count, from) {
        None => Err(Rejected(playfield)),
        Some((new_pf, picked_up_cards)) => {
            match place_cards(new_pf, picked_up_cards, to) {
                Some(after) => Ok(after),
                None => Err(Rejected(playfield)),
            }
        },
    }
}

/// Run coherence: a column never gives up a run in which some card does not
/// rest on the card below it, wherever in the run that pair lies and however
/// many cards are asked for.
pub proof fn lemma_incoherent_run_is_refused(board: Board, count: nat, column: usize, at: int)
    requires
        count <= board.tableau[column as int].len(),
        board.tableau[column as int].len() - count < at < board.tableau[column as int].len(),
        !stacks_on(board.tableau[column as int][at], board.tableau[column as int][at - 1]),
    ensures
        picked_up(board, count, Position::Tableau(column)) is None,
{
    let cards = board.tableau[column as int];
    let kept = cards.len() - count;
    let run = cards.subrange(kept, cards.len() as int);
    assert(run[at - kept] == cards[at]);
    assert(run[at - kept - 1] == cards[at - 1]);
}

/// Whatever is picked up is a coherent run of exactly `count` cards, and the
/// flower slot and the piles never give anything up.
pub proof fn lemma_picked_up_run(board: Board, count: nat, from: Position)
    requires
        count > 0,
        picked_up(board, count, from) is Some,
    ensures
        picked_up(board, count, from)->Some_0.1.len() == count,
        coherent(picked_up(board, count, from)->Some_0.1),
        from is FreeCell || from is Tableau,
{
}

/// Tableau placement: an empty column takes any run, and a column with cards
/// takes a run exactly when the run's bottom card rests on the column's top
/// card. The column then holds its old cards with the run on top of them.
pub proof fn lemma_column_takes_run(board: Board, run: Seq<Card>, column: usize)
    requires
        board.well_formed(),
        column < 8,
    ensures
        board.tableau[column as int].len() == 0 ==> placed(
            board,
            run,
            Position::Tableau(column),
        ) is Some,
        placed(board, run, Position::Tableau(column)) is Some <==> (board.tableau[column as int].len()
            == 0 || stacks_on(run[0], board.tableau[column as int].last())),
        placed(board, run, Position::Tableau(column)) matches Some(after) ==> after.tableau[column as int]
            == board.tableau[column as int] + run,
{
}

/// Free cell exclusivity: a free cell takes a single card always, and a cell
/// in use or flipped takes nothing.
pub proof fn lemma_free_cell_exclusive(board: Board, run: Seq<Card>, cell: usize)
    requires
        board.well_formed(),
        cell < 3,
    ensures
        placed(board, run, Position::FreeCell(cell)) is Some <==> (run.len() == 1
            && board.freecells[cell as int] is Free),
        board.freecells[cell as int] is InUse || board.freecells[cell as int] is Flipped ==> placed(
            board,
            run,
            Position::FreeCell(cell),
        ) is None,
        placed(board, run, Position::FreeCell(cell)) matches Some(after) ==> after.freecells[cell as int]
            == FreeCell::InUse(run[0]),
{
}

/// After a move, the top card of the run that was moved shows at the place
/// it was moved to.
pub proof fn lemma_moved_card_shows(board: Board, m: Move)
    requires
        board.well_formed(),
        m.valid(),
        moved(board, m) is Some,
    ensures
        moved(board, m)->Some_0.card_at(m.2) == Some(
            picked_up(board, m.0 as nat, m.1)->Some_0.1.last(),
        ),
{
}

/// A move neither flips a free cell nor frees a flipped one: nothing is
/// placed on a flipped cell and nothing is taken from it.
pub proof fn lemma_move_leaves_flipped_cells(board: Board, m: Move)
    requires
        board.well_formed(),
        m.valid(),
        moved(board, m) is Some,
    ensures
        forall|i: int|
            0 <= i < 3 ==> (#[trigger] moved(board, m)->Some_0.freecells[i] is Flipped
                <==> board.freecells[i] is Flipped),
{
}

/// A move keeps an orderly board orderly: the flower slot still holds
/// nothing but the flower, and the piles nothing but numbered cards.
pub proof fn lemma_move_keeps_board_orderly(board: Board, m: Move)
    requires
        board.orderly(),
        m.valid(),
        moved(board, m) is Some,
    ensures
        moved(board, m)->Some_0.orderly(),
{
    let (lifted, run) = picked_up(board, m.0 as nat, m.1)->Some_0;
    let after = placed(lifted, run, m.2)->Some_0;
    assert(lifted.orderly());
    match m.2 {
        Position::Pile(i) => {
            assert forall|j: int| 0 <= j < 3 implies (#[trigger] after.piles[j] matches Some(card)
                ==> card is Number) by {
                if j != i {
                    assert(after.piles[j] == lifted.piles[j]);
                }
            }
        },
        _ => {},
    }
}

} // verus!
