//! The board as lines of text for a terminal, cards drawn as boxes and
//! coloured by suit.

use crate::cards::{Card, Suit};
use crate::playfield::{Board, FreeCell, Playfield};
use vstd::prelude::*;
use vstd::string::StringExecFns;

verus! {

/// The colours that cards are drawn in.
#[derive(Debug, PartialEq, Eq, Copy, Clone, Structural)]
pub enum Ink {
    Red,
    Green,
    Blue,
}

/// How a piece of text is drawn: its colour, and whether bold.
#[derive(Debug, PartialEq, Eq, Copy, Clone, Structural)]
pub struct Style {
    pub ink: Ink,
    pub bold: bool,
}

impl Style {
    /// This style, bold.
    pub fn bold(self) -> (style: Style)
        ensures
            style == (Style { ink: self.ink, bold: true }),
    {
        Style { ink: self.ink, bold: true }
    }
}

/// Red cards are drawn in red, green ones in green, black ones in blue.
pub open spec fn suit_style(suit: Suit) -> Style {
    Style {
        ink: match suit {
            Suit::Red => Ink::Red,
            Suit::Green => Ink::Green,
            Suit::Black => Ink::Blue,
        },
        bold: false,
    }
}

/// The style that the cards of a suit are drawn in.
pub fn style_of_suit(suit: Suit) -> (style: Style)
    ensures
        style == suit_style(suit),
{
    match suit {
        Suit::Red => Style { ink: Ink::Red, bold: false },
        Suit::Green => Style { ink: Ink::Green, bold: false },
        Suit::Black => Style { ink: Ink::Blue, bold: false },
    }
}

/// The last digit of the escape code that selects a colour: 31 is red, 32
/// green, 34 blue.
pub open spec fn ink_digit(ink: Ink) -> char {
    match ink {
        Ink::Red => '1',
        Ink::Green => '2',
        Ink::Blue => '4',
    }
}

/// Text wrapped in the escape sequences of a style: the escape character,
/// `[`, `1;` where bold, the colour's code and `m`; then the text; then the
/// sequence that resets all styles.
pub open spec fn painted(style: Style, text: Seq<char>) -> Seq<char> {
    let begin = if style.bold {
        seq!['\x1b', '[', '1', ';', '3', ink_digit(style.ink), 'm']
    } else {
        seq!['\x1b', '[', '3', ink_digit(style.ink), 'm']
    };
    begin + text + seq!['\x1b', '[', '0', 'm']
}

/// `Style::paint` of `ansi_term` with the style's colour as foreground,
/// bold where the style is, and the result written out by `to_string`. For
/// such a style `ansi_term` writes its prefix (the escape character, `[`,
/// `1;` where bold, `31`, `32` or `34` for red, green or blue, and `m`),
/// then the text as it is, then its reset sequence (the escape character
/// and `[0m`).
#[verifier::external_body]
fn paint(style: Style, text: &str) -> (res: String)
    ensures
        res@ == painted(style, text@),
{
    let colour = match style.ink {
        Ink::Red => ansi_term::Colour::Red,
        Ink::Green => ansi_term::Colour::Green,
        Ink::Blue => ansi_term::Colour::Blue,
    };
    let outside =
        ansi_term::Style { foreground: Some(colour), is_bold: style.bold, ..Default::default() };
    outside.paint(text).to_string()
}

/// The mark of a suit's dragon.
pub open spec fn dragon_mark(suit: Suit) -> Seq<char> {
    match suit {
        Suit::Red => "%"@,
        Suit::Green => "&"@,
        Suit::Black => "="@,
    }
}

/// The mark of a suit's dragon, in the suit's colour.
pub fn ansi_of_dragon(suit: Suit) -> (text: String)
    ensures
        text@ == painted(suit_style(suit), dragon_mark(suit)),
{
    let c = match suit {
        Suit::Red => "%",
        Suit::Green => "&",
        Suit::Black => "=",
    };
    paint(style_of_suit(suit), c)
}

/// The decimal digit `d`, as a character.
pub open spec fn digit_char(d: int) -> char {
    if d == 0 {
        '0'
    } else if d == 1 {
        '1'
    } else if d == 2 {
        '2'
    } else if d == 3 {
        '3'
    } else if d == 4 {
        '4'
    } else if d == 5 {
        '5'
    } else if d == 6 {
        '6'
    } else if d == 7 {
        '7'
    } else if d == 8 {
        '8'
    } else {
        '9'
    }
}

/// A number written in decimal, without leading zeros.
pub open spec fn decimal(n: nat) -> Seq<char>
    decreases n,
{
    if n < 10 {
        seq![digit_char(n as int)]
    } else {
        decimal(n / 10).push(digit_char((n % 10) as int))
    }
}

fn digit_text(d: usize) -> (text: &'static str)
    requires
        d < 10,
    ensures
        text@ == seq![digit_char(d as int)],
{
    proof {
        reveal_strlit("0");
        reveal_strlit("1");
        reveal_strlit("2");
        reveal_strlit("3");
        reveal_strlit("4");
        reveal_strlit("5");
        reveal_strlit("6");
        reveal_strlit("7");
        reveal_strlit("8");
        reveal_strlit("9");
    }
    let text = if d == 0 {
        "0"
    } else if d == 1 {
        "1"
    } else if d == 2 {
        "2"
    } else if d == 3 {
        "3"
    } else if d == 4 {
        "4"
    } else if d == 5 {
        "5"
    } else if d == 6 {
        "6"
    } else if d == 7 {
        "7"
    } else if d == 8 {
        "8"
    } else {
        "9"
    };
    assert(text@ =~= seq![digit_char(d as int)]);
    text
}

/// A rank written in decimal.
pub fn number_text(n: usize) -> (text: String)
    ensures
        text@ == decimal(n as nat),
    decreases n,
{
    if n < 10 {
        String::from_str(digit_text(n))
    } else {
        let mut text = number_text(n / 10);
        text.append(digit_text(n % 10));
        assert(text@ =~= decimal(n as nat));
        text
    }
}

/// The line under a card's top edge, for a card whose mark is `mark`: the
/// mark stands at the left.
pub open spec fn marked_head(mark: Seq<char>) -> Seq<char> {
    "│ "@ + mark + "      │ "@
}

/// The line above a card's bottom edge, for a card whose mark is `mark`:
/// the mark stands at the right.
pub open spec fn marked_tail(mark: Seq<char>) -> Seq<char> {
    "│      "@ + mark + " │ "@
}

/// The line under a card's top edge. A dragon is marked by its suit's mark
/// and a numbered card by its rank, both in the suit's colour; the flower
/// shows its petals in the middle.
pub open spec fn head_line(card: Card) -> Seq<char> {
    match card {
        Card::Dragon(suit) => marked_head(painted(suit_style(suit), dragon_mark(suit))),
        Card::Flower => "│  ~~~~  │ "@,
        Card::Number(suit, rank) => marked_head(painted(suit_style(suit), decimal(rank as nat))),
    }
}

/// The line above a card's bottom edge.
pub open spec fn tail_line(card: Card) -> Seq<char> {
    match card {
        Card::Dragon(suit) => marked_tail(painted(suit_style(suit), dragon_mark(suit))),
        Card::Flower => "│  ~~~~  │ "@,
        Card::Number(suit, rank) => marked_tail(painted(suit_style(suit), decimal(rank as nat))),
    }
}

/// The two lines of a card's head (its top edge and the line under it) or
/// of its tail (the line above its bottom edge and that edge).
pub open spec fn card_main_part(card: Card, is_head: bool) -> Seq<Seq<char>> {
    if is_head {
        seq!["╭────────╮ "@, head_line(card)]
    } else {
        seq![tail_line(card), "╰────────╯ "@]
    }
}

/// Two lines of nothing, as wide as a card.
pub open spec fn empty_piece() -> Seq<Seq<char>> {
    seq!["           "@, "           "@]
}

/// Two lines of the inside of a card.
pub open spec fn filler_piece() -> Seq<Seq<char>> {
    seq!["│        │ "@, "│        │ "@]
}

/// A whole card in eight lines: head, two fillers, tail.
pub open spec fn card_block(card: Card) -> Seq<Seq<char>> {
    card_main_part(card, true) + filler_piece() + filler_piece() + card_main_part(card, false)
}

/// A box of eight lines whose inside rows all read `row`.
pub open spec fn box_block(row: Seq<char>) -> Seq<Seq<char>> {
    seq!["╭────────╮ "@, row, row, row, row, row, row, "╰────────╯ "@]
}

/// A card lying face down.
pub open spec fn flipped_block() -> Seq<Seq<char>> {
    box_block("│▒▒▒▒▒▒▒▒│ "@)
}

/// An empty place for a card.
pub open spec fn free_block() -> Seq<Seq<char>> {
    box_block("│        │ "@)
}

/// Puts `line` at the end of `lines`.
fn push_line(lines: &mut Vec<String>, line: String)
    ensures
        final(lines).deep_view() == old(lines).deep_view().push(line@),
{
    lines.push(line);
    assert(lines.deep_view() =~= old(lines).deep_view().push(line@));
}

/// Moves the lines of `more` to the end of `lines`.
fn extend_lines(lines: &mut Vec<String>, more: Vec<String>)
    ensures
        final(lines).deep_view() == old(lines).deep_view() + more.deep_view(),
{
    let mut more = more;
    let ghost added = more.deep_view();
    lines.append(&mut more);
    assert(lines.deep_view() =~= old(lines).deep_view() + added);
}

fn head_with(mark: &str) -> (line: String)
    ensures
        line@ == marked_head(mark@),
{
    let mut line = String::from_str("│ ");
    line.append(mark);
    line.append("      │ ");
    line
}

fn tail_with(mark: &str) -> (line: String)
    ensures
        line@ == marked_tail(mark@),
{
    let mut line = String::from_str("│      ");
    line.append(mark);
    line.append(" │ ");
    line
}

/// The head of a card, or its tail, in two lines.
pub fn print_card_main_part(card: &Card, is_head: bool) -> (ret: Vec<String>)
    ensures
        ret.deep_view() == card_main_part(*card, is_head),
{
    let mut ret: Vec<String> = Vec::new();
    if is_head {
        push_line(&mut ret, String::from_str("╭────────╮ "));
    }
    let line = if is_head {
        match *card {
            Card::Dragon(s) => head_with(ansi_of_dragon(s).as_str()),
            Card::Flower => String::from_str("│  ~~~~  │ "),
            Card::Number(s, n) => head_with(paint(style_of_suit(s), number_text(n).as_str()).as_str()),
        }
    } else {
        match *card {
            Card::Dragon(s) => tail_with(ansi_of_dragon(s).as_str()),
            Card::Flower => String::from_str("│  ~~~~  │ "),
            Card::Number(s, n) => tail_with(paint(style_of_suit(s), number_text(n).as_str()).as_str()),
        }
    };
    push_line(&mut ret, line);
    if !is_head {
        push_line(&mut ret, String::from_str("╰────────╯ "));
    }
    assert(ret.deep_view() =~= card_main_part(*card, is_head));
    ret
}

/// Two lines of nothing, as wide as a card.
pub fn empty_column() -> (ret: Vec<String>)
    ensures
        ret.deep_view() == empty_piece(),
{
    let mut ret: Vec<String> = Vec::new();
    push_line(&mut ret, String::from_str("           "));
    push_line(&mut ret, String::from_str("           "));
    assert(ret.deep_view() =~= empty_piece());
    ret
}

/// Two lines of the inside of a card.
pub fn filler_column() -> (ret: Vec<String>)
    ensures
        ret.deep_view() == filler_piece(),
{
    let mut ret: Vec<String> = Vec::new();
    push_line(&mut ret, String::from_str("│        │ "));
    push_line(&mut ret, String::from_str("│        │ "));
    assert(ret.deep_view() =~= filler_piece());
    ret
}

/// A whole card in eight lines.
pub fn print_card(card: &Card) -> (ret: Vec<String>)
    ensures
        ret.deep_view() == card_block(*card),
{
    let mut ret: Vec<String> = Vec::new();
    extend_lines(&mut ret, print_card_main_part(card, true));
    extend_lines(&mut ret, filler_column());
    extend_lines(&mut ret, filler_column());
    extend_lines(&mut ret, print_card_main_part(card, false));
    assert(ret.deep_view() =~= card_block(*card));
    ret
}

fn print_box(row: &str) -> (ret: Vec<String>)
    ensures
        ret.deep_view() == box_block(row@),
{
    let mut ret: Vec<String> = Vec::new();
    push_line(&mut ret, String::from_str("╭────────╮ "));
    assert(ret.deep_view() =~= box_block(row@).take(1));
    let mut i: usize = 0;
    while i < 6
        invariant
            i <= 6,
            ret.deep_view() == box_block(row@).take(1 + i),
        decreases 6 - i,
    {
        push_line(&mut ret, String::from_str(row));
        assert(ret.deep_view() =~= box_block(row@).take(2 + i));
        i = i + 1;
    }
    push_line(&mut ret, String::from_str("╰────────╯ "));
    assert(ret.deep_view() =~= box_block(row@));
    ret
}

/// A card lying face down, in eight lines.
pub fn print_flipped_card() -> (ret: Vec<String>)
    ensures
        ret.deep_view() == flipped_block(),
{
    print_box("│▒▒▒▒▒▒▒▒│ ")
}

/// An empty place for a card, in eight lines.
pub fn print_free_card() -> (ret: Vec<String>)
    ensures
        ret.deep_view() == free_block(),
{
    print_box("│        │ ")
}

/// Row `row` of the first `upto` blocks set side by side: the blocks' rows
/// of that number, one after another.
pub open spec fn row_across(blocks: Seq<Seq<Seq<char>>>, row: int, upto: int) -> Seq<char>
    decreases upto,
{
    if upto <= 0 {
        Seq::empty()
    } else {
        row_across(blocks, row, upto - 1) + blocks[upto - 1][row]
    }
}

/// Blocks of lines set side by side, with as many rows as the first block.
pub open spec fn side_by_side(blocks: Seq<Seq<Seq<char>>>) -> Seq<Seq<char>> {
    Seq::new(blocks[0].len(), |row: int| row_across(blocks, row, blocks.len() as int))
}

fn side_by_side_lines(blocks: &Vec<Vec<String>>) -> (lines: Vec<String>)
    requires
        blocks@.len() > 0,
        forall|j: int| 0 <= j < blocks@.len() ==> (#[trigger] blocks@[j])@.len() >= blocks@[0]@.len(),
    ensures
        lines.deep_view() == side_by_side(blocks.deep_view()),
{
    let rows = blocks[0].len();
    let mut lines: Vec<String> = Vec::new();
    let mut i: usize = 0;
    assert(lines.deep_view() =~= side_by_side(blocks.deep_view()).take(0));
    while i < rows
        invariant
            i <= rows,
            rows == blocks@[0]@.len(),
            blocks@.len() > 0,
            forall|j: int| 0 <= j < blocks@.len() ==> (#[trigger] blocks@[j])@.len() >= rows,
            lines.deep_view() == side_by_side(blocks.deep_view()).take(i as int),
        decreases rows - i,
    {
        let mut line = String::new();
        let mut j: usize = 0;
        while j < blocks.len()
            invariant
                j <= blocks@.len(),
                i < rows,
                forall|j: int| 0 <= j < blocks@.len() ==> (#[trigger] blocks@[j])@.len() >= rows,
                line@ == row_across(blocks.deep_view(), i as int, j as int),
            decreases blocks@.len() - j,
        {
            assert(blocks@[j as int]@.len() >= rows);
            line.append(blocks[j][i].as_str());
            assert(blocks.deep_view()[j as int][i as int] == blocks@[j as int]@[i as int]@);
            j = j + 1;
        }
        push_line(&mut lines, line);
        assert(lines.deep_view() =~= side_by_side(blocks.deep_view()).take(i + 1));
        i = i + 1;
    }
    assert(lines.deep_view() =~= side_by_side(blocks.deep_view()));
    lines
}

/// The two lines at place `piece` of a drawn column. Every card shows its
/// head, one below the other; under the head of the top card come two
/// fillers and that card's tail. Below that, and in an empty column, there
/// is nothing.
pub open spec fn column_piece(column: Seq<Card>, piece: int) -> Seq<Seq<char>> {
    if piece < column.len() {
        card_main_part(column[piece], true)
    } else if column.len() > 0 && piece < column.len() + 2 {
        filler_piece()
    } else if column.len() > 0 && piece == column.len() + 2 {
        card_main_part(column.last(), false)
    } else {
        empty_piece()
    }
}

/// A column drawn in `pieces` pieces of two lines each.
pub open spec fn column_block(column: Seq<Card>, pieces: nat) -> Seq<Seq<char>> {
    Seq::new(2 * pieces, |line: int| column_piece(column, line / 2)[line % 2])
}

/// The height of the tallest of the first `upto` columns.
pub open spec fn tallest(tableau: Seq<Seq<Card>>, upto: int) -> nat
    decreases upto,
{
    if upto <= 0 {
        0
    } else if tableau[upto - 1].len() > tallest(tableau, upto - 1) {
        tableau[upto - 1].len()
    } else {
        tallest(tableau, upto - 1)
    }
}

/// The tableau as lines of text: its eight columns side by side, each drawn
/// three pieces taller than the tallest column has cards.
pub open spec fn tableau_text(board: Board) -> Seq<Seq<char>> {
    side_by_side(
        Seq::new(
            8,
            |col: int| column_block(board.tableau[col], tallest(board.tableau, 8) + 3),
        ),
    )
}

/// Whether the tableau can be drawn: three more pieces than the tallest
/// column has cards must be a number that the machine can count to.
pub open spec fn drawable(board: Board) -> bool {
    tallest(board.tableau, 8) + 3 <= usize::MAX
}

fn tallest_column(playfield: &Playfield) -> (height: usize)
    ensures
        height == tallest(playfield@.tableau, 8),
{
    let mut height: usize = 0;
    let mut col: usize = 0;
    while col < 8
        invariant
            col <= 8,
            height == tallest(playfield@.tableau, col as int),
        decreases 8 - col,
    {
        if playfield.tableau[col].len() > height {
            height = playfield.tableau[col].len();
        }
        col = col + 1;
    }
    height
}

/// Whether `tableau_lines` can draw this board.
pub fn can_draw(playfield: &Playfield) -> (ok: bool)
    ensures
        ok == drawable(playfield@),
{
    tallest_column(playfield) <= usize::MAX - 3
}

fn column_lines(cards_in_column: &Vec<Card>, pieces: usize) -> (lines: Vec<String>)
    requires
        cards_in_column@.len() + 3 <= usize::MAX,
    ensures
        lines.deep_view() == column_block(cards_in_column@, pieces as nat),
{
    let column_height = cards_in_column.len();
    let mut lines: Vec<String> = Vec::new();
    let mut piece_index: usize = 0;
    assert(lines.deep_view() =~= column_block(cards_in_column@, 0));
    while piece_index < pieces
        invariant
            piece_index <= pieces,
            column_height == cards_in_column@.len(),
            column_height + 3 <= usize::MAX,
            lines.deep_view() == column_block(cards_in_column@, piece_index as nat),
        decreases pieces - piece_index,
    {
        let is_head = piece_index < column_height;
        let is_filler = !is_head && (piece_index < column_height + 2 && column_height > 0);
        let is_tail = piece_index == column_height + 2 && column_height > 0;
        let piece = if is_head {
            print_card_main_part(&cards_in_column[piece_index], true)
        } else if is_filler {
            filler_column()
        } else if is_tail {
            print_card_main_part(&cards_in_column[piece_index - 3], false)
        } else {
            empty_column()
        };
        assert(piece.deep_view() == column_piece(cards_in_column@, piece_index as int));
        extend_lines(&mut lines, piece);
        assert(lines.deep_view() =~= column_block(cards_in_column@, (piece_index + 1) as nat)) by {
            let before = column_block(cards_in_column@, piece_index as nat);
            let after = column_block(cards_in_column@, (piece_index + 1) as nat);
            let added = column_piece(cards_in_column@, piece_index as int);
            assert(added.len() == 2);
            assert forall|line: int| 0 <= line < after.len() implies (before + added)[line]
                == after[line] by {
                if line < 2 * piece_index {
                    assert(before[line] == after[line]);
                } else {
                    assert(line / 2 == piece_index);
                    assert(line % 2 == line - 2 * piece_index);
                }
            }
        }
        piece_index = piece_index + 1;
    }
    lines
}

/// The tableau as lines of text.
pub fn tableau_lines(playfield: &Playfield) -> (lines: Vec<String>)
    requires
        drawable(playfield@),
    ensures
        lines.deep_view() == tableau_text(playfield@),
{
    let max_col_height = tallest_column(playfield);
    let mut prints: Vec<Vec<String>> = Vec::new();
    let mut col: usize = 0;
    let ghost blocks = Seq::new(
        8,
        |col: int| column_block(playfield@.tableau[col], (max_col_height + 3) as nat),
    );
    assert(prints.deep_view() =~= blocks.take(0));
    while col < 8
        invariant
            col <= 8,
            max_col_height == tallest(playfield@.tableau, 8),
            max_col_height + 3 <= usize::MAX,
            blocks == Seq::new(
                8,
                |col: int| column_block(playfield@.tableau[col], (max_col_height + 3) as nat),
            ),
            prints@.len() == col,
            prints.deep_view() == blocks.take(col as int),
        decreases 8 - col,
    {
        proof {
            lemma_tallest_bounds(playfield@.tableau, 8, col as int);
        }
        let lines = column_lines(&playfield.tableau[col], max_col_height + 3);
        push_block(&mut prints, lines);
        assert(prints.deep_view() =~= blocks.take(col + 1));
        col = col + 1;
    }
    assert(prints.deep_view() =~= blocks);
    assert forall|j: int| 0 <= j < prints@.len() implies (#[trigger] prints@[j])@.len()
        >= prints@[0]@.len() by {
        assert(prints.deep_view()[j].len() == prints@[j]@.len());
        assert(prints.deep_view()[0].len() == prints@[0]@.len());
    }
    side_by_side_lines(&prints)
}

/// No column is taller than the tallest.
pub proof fn lemma_tallest_bounds(tableau: Seq<Seq<Card>>, upto: int, col: int)
    requires
        0 <= col < upto,
    ensures
        tableau[col].len() <= tallest(tableau, upto),
    decreases upto,
{
    if col < upto - 1 {
        lemma_tallest_bounds(tableau, upto - 1, col);
    }
}

/// A free cell in eight lines: its card, a card face down where it is
/// flipped, an empty place where it is free.
pub open spec fn cell_block(cell: FreeCell) -> Seq<Seq<char>> {
    match cell {
        FreeCell::InUse(card) => card_block(card),
        FreeCell::Flipped => flipped_block(),
        FreeCell::Free => free_block(),
    }
}

/// A pile in eight lines: its top card, or an empty place.
pub open spec fn pile_block(pile: Option<Card>) -> Seq<Seq<char>> {
    match pile {
        Some(card) => card_block(card),
        None => free_block(),
    }
}

/// The button of a suit's dragons: two lines of a small box and a line of
/// space, bold and in the suit's colour.
pub open spec fn button(suit: Suit) -> Seq<Seq<char>> {
    let style = Style { ink: suit_style(suit).ink, bold: true };
    seq![
        painted(style, "  ╭─╮   "@),
        painted(style, "  ╰─╯   "@),
        painted(style, "        "@),
    ]
}

/// The three buttons, red over green over black, without the line of space
/// under the last: eight lines.
pub open spec fn buttons_block() -> Seq<Seq<char>> {
    (button(Suit::Red) + button(Suit::Green) + button(Suit::Black)).drop_last()
}

/// The eight lines between the buttons and the piles.
pub open spec fn gap_block() -> Seq<Seq<char>> {
    seq![
        "              "@,
        "|        |    "@,
        "|        |    "@,
        "|        |    "@,
        "|        |    "@,
        "|        |    "@,
        "|        |    "@,
        "              "@,
    ]
}

/// The top of the board as eight lines of text: the three free cells, the
/// dragon buttons, a gap, the three piles.
pub open spec fn top_text(board: Board) -> Seq<Seq<char>> {
    side_by_side(
        seq![
            cell_block(board.freecells[0]),
            cell_block(board.freecells[1]),
            cell_block(board.freecells[2]),
            buttons_block(),
            gap_block(),
            pile_block(board.piles[0]),
            pile_block(board.piles[1]),
            pile_block(board.piles[2]),
        ],
    )
}

fn print_cell(cell: &FreeCell) -> (ret: Vec<String>)
    ensures
        ret.deep_view() == cell_block(*cell),
{
    match cell {
        FreeCell::InUse(c) => print_card(c),
        FreeCell::Flipped => print_flipped_card(),
        FreeCell::Free => print_free_card(),
    }
}

fn print_pile(pile: &Option<Card>) -> (ret: Vec<String>)
    ensures
        ret.deep_view() == pile_block(*pile),
{
    match pile {
        Some(c) => print_card(c),
        None => print_free_card(),
    }
}

fn print_button(suit: Suit) -> (ret: Vec<String>)
    ensures
        ret.deep_view() == button(suit),
{
    let style = style_of_suit(suit).bold();
    let mut ret: Vec<String> = Vec::new();
    push_line(&mut ret, paint(style, "  ╭─╮   "));
    push_line(&mut ret, paint(style, "  ╰─╯   "));
    push_line(&mut ret, paint(style, "        "));
    assert(ret.deep_view() =~= button(suit));
    ret
}

fn print_buttons() -> (ret: Vec<String>)
    ensures
        ret.deep_view() == buttons_block(),
{
    let mut tmp: Vec<String> = Vec::new();
    extend_lines(&mut tmp, print_button(Suit::Red));
    extend_lines(&mut tmp, print_button(Suit::Green));
    extend_lines(&mut tmp, print_button(Suit::Black));
    let ghost all = tmp.deep_view();
    assert(all.len() == 9);
    tmp.pop();
    assert(tmp.deep_view() =~= all.drop_last());
    tmp
}

fn print_gap() -> (ret: Vec<String>)
    ensures
        ret.deep_view() == gap_block(),
{
    let mut ret: Vec<String> = Vec::new();
    push_line(&mut ret, String::from_str("              "));
    let mut i: usize = 0;
    assert(ret.deep_view() =~= gap_block().take(1));
    while i < 6
        invariant
            i <= 6,
            ret.deep_view() == gap_block().take(1 + i),
        decreases 6 - i,
    {
        push_line(&mut ret, String::from_str("|        |    "));
        assert(ret.deep_view() =~= gap_block().take(2 + i));
        i = i + 1;
    }
    push_line(&mut ret, String::from_str("              "));
    assert(ret.deep_view() =~= gap_block());
    ret
}

/// Puts `block` at the end of `blocks`.
fn push_block(blocks: &mut Vec<Vec<String>>, block: Vec<String>)
    ensures
        final(blocks).deep_view() == old(blocks).deep_view().push(block.deep_view()),
        final(blocks)@.len() == old(blocks)@.len() + 1,
        forall|j: int| 0 <= j < old(blocks)@.len() ==> final(blocks)@[j] == old(blocks)@[j],
        final(blocks)@[old(blocks)@.len() as int] == block,
{
    blocks.push(block);
    assert(blocks.deep_view() =~= old(blocks).deep_view().push(block.deep_view()));
}

/// The top of the board as lines of text.
pub fn top_lines(playfield: &Playfield) -> (lines: Vec<String>)
    ensures
        lines.deep_view() == top_text(playfield@),
{
    let mut prints: Vec<Vec<String>> = Vec::new();
    push_block(&mut prints, print_cell(&playfield.freecells[0]));
    push_block(&mut prints, print_cell(&playfield.freecells[1]));
    push_block(&mut prints, print_cell(&playfield.freecells[2]));
    push_block(&mut prints, print_buttons());
    push_block(&mut prints, print_gap());
    push_block(&mut prints, print_pile(&playfield.piles[0]));
    push_block(&mut prints, print_pile(&playfield.piles[1]));
    push_block(&mut prints, print_pile(&playfield.piles[2]));
    let ghost blocks = seq![
        cell_block(playfield@.freecells[0]),
        cell_block(playfield@.freecells[1]),
        cell_block(playfield@.freecells[2]),
        buttons_block(),
        gap_block(),
        pile_block(playfield@.piles[0]),
        pile_block(playfield@.piles[1]),
        pile_block(playfield@.piles[2]),
    ];
    assert(prints.deep_view() =~= blocks);
    assert forall|j: int| 0 <= j < prints@.len() implies (#[trigger] prints@[j])@.len()
        >= prints@[0]@.len() by {
        lemma_blocks_have_eight_lines(playfield@);
        assert(prints.deep_view()[j].len() == prints@[j]@.len());
        assert(prints.deep_view()[0].len() == prints@[0]@.len());
    }
    side_by_side_lines(&prints)
}

/// Every block of the top of the board has eight lines, and so has the top.
pub proof fn lemma_blocks_have_eight_lines(board: Board)
    ensures
        forall|cell: FreeCell| (#[trigger] cell_block(cell)).len() == 8,
        forall|pile: Option<Card>| (#[trigger] pile_block(pile)).len() == 8,
        buttons_block().len() == 8,
        gap_block().len() == 8,
        top_text(board).len() == 8,
{
}

/// The whole board as lines of text: the top, an empty line, the tableau.
pub open spec fn playfield_text(board: Board) -> Seq<Seq<char>> {
    top_text(board).push(Seq::empty()) + tableau_text(board)
}

/// The whole board as lines of text.
pub fn playfield_lines(playfield: &Playfield) -> (lines: Vec<String>)
    requires
        drawable(playfield@),
    ensures
        lines.deep_view() == playfield_text(playfield@),
{
    let mut lines = top_lines(playfield);
    push_line(&mut lines, String::new());
    extend_lines(&mut lines, tableau_lines(playfield));
    lines
}

} // verus!
