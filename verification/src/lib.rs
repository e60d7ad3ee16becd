//! Rules engine of a three-suit solitaire: forty cards, three free cells,
//! a flower slot, three discard piles and eight tableau columns.
//!
//! A board is a value. A move or a dragon flip takes a board and gives the
//! next one, or is refused; a refused move or flip changes nothing.

pub mod cards;
pub mod census;
pub mod deck;
pub mod dragons;
pub mod moves;
pub mod playfield;
pub mod render;

pub use cards::{can_place_on_top, Card, Suit};
pub use deck::{make_deck, make_shuffled_deck};
pub use dragons::{apply_flip, flip_dragon};
pub use moves::{apply_move, is_legal_move, pick_up_cards, place_cards};
pub use playfield::{
    card_at, deal, make_shuffled_playfield, FreeCell, Move, Playfield, Position, Rejected,
};
