use shenzhen_solitaire::{
    apply_flip, apply_move, can_place_on_top, card_at, deal, flip_dragon, is_legal_move, make_deck,
    make_shuffled_deck, make_shuffled_playfield, pick_up_cards, place_cards, Card, FreeCell, Move,
    Playfield, Position, Rejected, Suit,
};

fn make_test_playfield() -> Playfield {
    Playfield {
        freecells: [FreeCell::Free, FreeCell::Flipped, FreeCell::InUse(Card::Dragon(Suit::Black))],
        flower: Some(Card::Flower),
        piles: [None, Some(Card::Number(Suit::Green, 1)), None],
        tableau: [
            /* 0 */ vec![],
            /* 1 */ vec![Card::Dragon(Suit::Red)],
            /* 2 */ vec![Card::Number(Suit::Red, 4), Card::Number(Suit::Green, 3)],
            /* 3 */ vec![Card::Number(Suit::Green, 2)],
            /* 4 */ vec![Card::Number(Suit::Black, 2)],
            /* 5 */ vec![Card::Number(Suit::Black, 4)],
            /* 6 */ vec![Card::Number(Suit::Black, 6), Card::Number(Suit::Black, 5)],
            /* 7 */ vec![],
        ],
    }
}

fn empty_playfield() -> Playfield {
    Playfield {
        freecells: [FreeCell::Free, FreeCell::Free, FreeCell::Free],
        flower: None,
        piles: [None, None, None],
        tableau: [vec![], vec![], vec![], vec![], vec![], vec![], vec![], vec![]],
    }
}

fn count_of(cards: &[Card], card: Card) -> usize {
    cards.iter().filter(|c| **c == card).count()
}

fn all_suits() -> [Suit; 3] {
    [Suit::Red, Suit::Green, Suit::Black]
}

fn assert_census(cards: &[Card]) {
    assert_eq!(cards.len(), 40);
    assert_eq!(count_of(cards, Card::Flower), 1);
    for suit in all_suits() {
        assert_eq!(count_of(cards, Card::Dragon(suit)), 4);
        assert_eq!(count_of(cards, Card::Number(suit, 0)), 0);
        assert_eq!(count_of(cards, Card::Number(suit, 10)), 0);
        let mut rank: usize = 1;
        while rank <= 9 {
            assert_eq!(count_of(cards, Card::Number(suit, rank)), 1);
            rank += 1;
        }
    }
    assert_eq!(cards.iter().filter(|c| matches!(c, Card::Number(_, _))).count(), 27);
    assert_eq!(cards.iter().filter(|c| matches!(c, Card::Dragon(_))).count(), 12);
}

#[test]
fn test_make_deck() {
    assert_eq!(make_deck().len(), 40);
}

#[test]
fn test_is_legal_move() {
    let playfield = make_test_playfield();

    /********** Source checks *********/
    // Moving the placed flower: not allowed
    assert!(!is_legal_move(&playfield, Move(1, Position::Flower, Position::FreeCell(0))));
    // Moving from the pile: not allowed
    assert!(!is_legal_move(&playfield, Move(1, Position::Pile(1), Position::FreeCell(0))));
    // Moving from a flipped freecell: not allowed
    assert!(!is_legal_move(&playfield, Move(1, Position::FreeCell(1), Position::FreeCell(0))));
    // Moving two of the same color: not allowed
    assert!(!is_legal_move(&playfield, Move(2, Position::Tableau(6), Position::Tableau(7))));

    /********** Destination checks *********/
    // Move to empty freecell: true
    assert!(is_legal_move(&playfield, Move(1, Position::Tableau(1), Position::FreeCell(0))));
    // Move to flipped freecell: false
    assert!(!is_legal_move(&playfield, Move(1, Position::Tableau(1), Position::FreeCell(1))));
    // Move to in-use freecell: false
    assert!(!is_legal_move(&playfield, Move(1, Position::Tableau(1), Position::FreeCell(2))));

    // Moving (Green 2) on top of (Green 3): Not allowed
    assert!(!is_legal_move(&playfield, Move(1, Position::Tableau(3), Position::Tableau(2))));
    // Moving (Black 2) on top of (Green 3): Allowed
    assert!(is_legal_move(&playfield, Move(1, Position::Tableau(4), Position::Tableau(2))));
    // Moving two cards (Red 4, Green 3) to (Black 5): Allowed
    assert!(is_legal_move(&playfield, Move(2, Position::Tableau(2), Position::Tableau(6))));
}

#[test]
fn test_flip_dragons_on_top_of_each_other() {
    // Can't flip since two dragons are on top of each other
    let pf = Playfield {
        freecells: [FreeCell::Free, FreeCell::Free, FreeCell::InUse(Card::Dragon(Suit::Black))],
        flower: None,
        piles: [None, None, None],
        tableau: [
            /* 0 */ vec![Card::Dragon(Suit::Black), Card::Dragon(Suit::Black)],
            /* 1 */ vec![],
            /* 2 */ vec![Card::Number(Suit::Red, 4), Card::Dragon(Suit::Black)],
            /* 3 */ vec![],
            /* 4 */ vec![],
            /* 5 */ vec![],
            /* 6 */ vec![],
            /* 7 */ vec![],
        ],
    };
    assert!(flip_dragon(pf, Suit::Black) == None);
}

#[test]
fn test_flip_dragons_no_space() {
    // No room in free cells, can't flip
    let pf = Playfield {
        freecells: [
            FreeCell::InUse(Card::Dragon(Suit::Red)),
            FreeCell::Flipped,
            FreeCell::InUse(Card::Dragon(Suit::Red)),
        ],
        flower: None,
        piles: [None, None, None],
        tableau: [
            /* 0 */ vec![Card::Dragon(Suit::Black)],
            /* 1 */ vec![Card::Dragon(Suit::Black)],
            /* 2 */ vec![Card::Number(Suit::Red, 4), Card::Dragon(Suit::Black)],
            /* 3 */ vec![Card::Dragon(Suit::Black)],
            /* 4 */ vec![],
            /* 5 */ vec![],
            /* 6 */ vec![],
            /* 7 */ vec![],
        ],
    };
    assert!(flip_dragon(pf, Suit::Black) == None);
}

#[test]
fn deck_is_built_in_its_fixed_order() {
    let deck = make_deck();
    assert_eq!(deck[0], Card::Flower);
    assert_eq!(deck[1], Card::Number(Suit::Red, 1));
    assert_eq!(deck[9], Card::Number(Suit::Red, 9));
    assert_eq!(deck[10], Card::Dragon(Suit::Red));
    assert_eq!(deck[13], Card::Dragon(Suit::Red));
    assert_eq!(deck[14], Card::Number(Suit::Green, 1));
    assert_eq!(deck[26], Card::Dragon(Suit::Green));
    assert_eq!(deck[27], Card::Number(Suit::Black, 1));
    assert_eq!(deck[35], Card::Number(Suit::Black, 9));
    assert_eq!(deck[39], Card::Dragon(Suit::Black));
}

#[test]
fn deck_census() {
    assert_census(&make_deck());
}

#[test]
fn shuffled_deck_is_the_deck_in_another_order() {
    let shuffled = make_shuffled_deck();
    assert_census(&shuffled);
    assert_ne!(shuffled, make_deck());
}

#[test]
fn deal_goes_row_by_row_across_the_columns() {
    let deck = make_deck();
    let playfield = deal(&deck);
    assert_eq!(playfield.freecells, [FreeCell::Free, FreeCell::Free, FreeCell::Free]);
    assert_eq!(playfield.flower, None);
    assert_eq!(playfield.piles, [None, None, None]);
    assert_eq!(
        playfield.tableau[0],
        vec![
            Card::Flower,
            Card::Number(Suit::Red, 8),
            Card::Number(Suit::Green, 3),
            Card::Dragon(Suit::Green),
            Card::Number(Suit::Black, 6),
        ]
    );
    assert_eq!(
        playfield.tableau[7],
        vec![
            Card::Number(Suit::Red, 7),
            Card::Number(Suit::Green, 2),
            Card::Dragon(Suit::Green),
            Card::Number(Suit::Black, 5),
            Card::Dragon(Suit::Black),
        ]
    );
    let mut col: usize = 0;
    while col < 8 {
        assert_eq!(playfield.tableau[col].len(), 5);
        let mut row: usize = 0;
        while row < 5 {
            assert_eq!(playfield.tableau[col][row], deck[8 * row + col]);
            row += 1;
        }
        col += 1;
    }
}

#[test]
fn shuffled_playfield_holds_the_whole_deck_in_the_tableau() {
    let playfield = make_shuffled_playfield();
    assert_eq!(playfield.freecells, [FreeCell::Free, FreeCell::Free, FreeCell::Free]);
    assert_eq!(playfield.flower, None);
    assert_eq!(playfield.piles, [None, None, None]);
    let mut cards: Vec<Card> = Vec::new();
    for column in playfield.tableau.iter() {
        assert_eq!(column.len(), 5);
        cards.extend(column.iter().copied());
    }
    assert_census(&cards);
    assert_ne!(playfield, deal(&make_deck()));
}

#[test]
fn clone_gives_an_equal_board() {
    let playfield = make_test_playfield();
    assert_eq!(playfield.clone(), playfield);
}

#[test]
fn can_place_on_top_wants_another_suit_and_the_next_rank() {
    let red4 = Card::Number(Suit::Red, 4);
    assert!(can_place_on_top(red4, Card::Number(Suit::Green, 5)));
    assert!(can_place_on_top(red4, Card::Number(Suit::Black, 5)));
    assert!(!can_place_on_top(red4, Card::Number(Suit::Red, 5)));
    assert!(!can_place_on_top(red4, Card::Number(Suit::Black, 4)));
    assert!(!can_place_on_top(red4, Card::Number(Suit::Green, 3)));
    assert!(!can_place_on_top(red4, Card::Number(Suit::Green, 6)));
    assert!(!can_place_on_top(red4, Card::Dragon(Suit::Green)));
    assert!(!can_place_on_top(Card::Dragon(Suit::Green), Card::Number(Suit::Red, 5)));
    assert!(!can_place_on_top(Card::Flower, Card::Number(Suit::Red, 5)));
    assert!(!can_place_on_top(red4, Card::Flower));
    assert!(!can_place_on_top(Card::Dragon(Suit::Red), Card::Dragon(Suit::Green)));
}

#[test]
fn can_place_on_top_at_the_largest_rank() {
    assert!(!can_place_on_top(Card::Number(Suit::Red, usize::MAX), Card::Number(Suit::Green, 0)));
    assert!(can_place_on_top(
        Card::Number(Suit::Red, usize::MAX - 1),
        Card::Number(Suit::Green, usize::MAX)
    ));
}

#[test]
fn card_at_shows_what_lies_on_top() {
    let playfield = make_test_playfield();
    assert_eq!(card_at(&playfield, Position::FreeCell(0)), None);
    assert_eq!(card_at(&playfield, Position::FreeCell(1)), None);
    assert_eq!(card_at(&playfield, Position::FreeCell(2)), Some(Card::Dragon(Suit::Black)));
    assert_eq!(card_at(&playfield, Position::FreeCell(3)), None);
    assert_eq!(card_at(&playfield, Position::Flower), Some(Card::Flower));
    assert_eq!(card_at(&empty_playfield(), Position::Flower), None);
    assert_eq!(card_at(&playfield, Position::Pile(0)), None);
    assert_eq!(card_at(&playfield, Position::Pile(1)), Some(Card::Number(Suit::Green, 1)));
    assert_eq!(card_at(&playfield, Position::Pile(3)), None);
    assert_eq!(card_at(&playfield, Position::Tableau(0)), None);
    assert_eq!(card_at(&playfield, Position::Tableau(2)), Some(Card::Number(Suit::Green, 3)));
    assert_eq!(card_at(&playfield, Position::Tableau(6)), Some(Card::Number(Suit::Black, 5)));
    assert_eq!(card_at(&playfield, Position::Tableau(8)), None);
}

#[test]
fn nothing_is_picked_up_from_flower_slot_or_pile() {
    assert_eq!(pick_up_cards(make_test_playfield(), 1, Position::Flower), None);
    assert_eq!(pick_up_cards(make_test_playfield(), 1, Position::Pile(1)), None);
    assert_eq!(pick_up_cards(make_test_playfield(), 1, Position::Pile(0)), None);
}

#[test]
fn free_cell_gives_up_its_one_card() {
    let (left, run) = pick_up_cards(make_test_playfield(), 1, Position::FreeCell(2)).unwrap();
    assert_eq!(run, vec![Card::Dragon(Suit::Black)]);
    let mut expected = make_test_playfield();
    expected.freecells[2] = FreeCell::Free;
    assert_eq!(left, expected);

    assert_eq!(pick_up_cards(make_test_playfield(), 2, Position::FreeCell(2)), None);
    assert_eq!(pick_up_cards(make_test_playfield(), 1, Position::FreeCell(0)), None);
    assert_eq!(pick_up_cards(make_test_playfield(), 1, Position::FreeCell(1)), None);
}

#[test]
fn column_gives_up_its_top_cards_bottom_first() {
    let (left, run) = pick_up_cards(make_test_playfield(), 2, Position::Tableau(2)).unwrap();
    assert_eq!(run, vec![Card::Number(Suit::Red, 4), Card::Number(Suit::Green, 3)]);
    let mut expected = make_test_playfield();
    expected.tableau[2] = vec![];
    assert_eq!(left, expected);

    let (left, run) = pick_up_cards(make_test_playfield(), 1, Position::Tableau(2)).unwrap();
    assert_eq!(run, vec![Card::Number(Suit::Green, 3)]);
    assert_eq!(left.tableau[2], vec![Card::Number(Suit::Red, 4)]);

    let (left, run) = pick_up_cards(make_test_playfield(), 1, Position::Tableau(1)).unwrap();
    assert_eq!(run, vec![Card::Dragon(Suit::Red)]);
    assert_eq!(left.tableau[1], vec![]);
}

#[test]
fn column_gives_up_no_more_than_it_has() {
    assert_eq!(pick_up_cards(make_test_playfield(), 3, Position::Tableau(2)), None);
    assert_eq!(pick_up_cards(make_test_playfield(), 1, Position::Tableau(0)), None);
    assert_eq!(pick_up_cards(make_test_playfield(), usize::MAX, Position::Tableau(2)), None);
}

#[test]
fn incoherent_run_is_refused_wherever_the_break_lies() {
    let mut playfield = empty_playfield();
    playfield.tableau[0] = vec![
        Card::Number(Suit::Red, 9),
        Card::Number(Suit::Red, 8),
        Card::Number(Suit::Green, 7),
        Card::Number(Suit::Black, 6),
        Card::Number(Suit::Red, 5),
    ];
    playfield.tableau[1] = vec![
        Card::Number(Suit::Red, 7),
        Card::Number(Suit::Green, 6),
        Card::Number(Suit::Black, 5),
        Card::Number(Suit::Black, 4),
    ];
    playfield.tableau[2] =
        vec![Card::Number(Suit::Red, 7), Card::Dragon(Suit::Green), Card::Number(Suit::Black, 5)];
    // the break lies at the bottom of the run
    assert_eq!(pick_up_cards(playfield.clone(), 5, Position::Tableau(0)), None);
    assert!(pick_up_cards(playfield.clone(), 4, Position::Tableau(0)).is_some());
    // the break lies at the top of the run
    assert_eq!(pick_up_cards(playfield.clone(), 2, Position::Tableau(1)), None);
    assert_eq!(pick_up_cards(playfield.clone(), 3, Position::Tableau(1)), None);
    assert_eq!(pick_up_cards(playfield.clone(), 4, Position::Tableau(1)), None);
    assert!(pick_up_cards(playfield.clone(), 1, Position::Tableau(1)).is_some());
    // a dragon inside the run
    assert_eq!(pick_up_cards(playfield.clone(), 2, Position::Tableau(2)), None);
    assert_eq!(pick_up_cards(playfield.clone(), 3, Position::Tableau(2)), None);
}

#[test]
fn tableau_placement() {
    let red4 = Card::Number(Suit::Red, 4);
    let mut playfield = empty_playfield();
    playfield.tableau[0] = vec![Card::Number(Suit::Green, 5)];
    playfield.tableau[1] = vec![Card::Number(Suit::Black, 4)];

    let after = place_cards(playfield.clone(), vec![red4], Position::Tableau(0)).unwrap();
    assert_eq!(after.tableau[0], vec![Card::Number(Suit::Green, 5), red4]);
    assert_eq!(after.tableau[1], playfield.tableau[1]);

    assert_eq!(place_cards(playfield.clone(), vec![red4], Position::Tableau(1)), None);

    let after = place_cards(playfield.clone(), vec![red4], Position::Tableau(2)).unwrap();
    assert_eq!(after.tableau[2], vec![red4]);
    let after =
        place_cards(playfield.clone(), vec![Card::Dragon(Suit::Red)], Position::Tableau(3)).unwrap();
    assert_eq!(after.tableau[3], vec![Card::Dragon(Suit::Red)]);
    let after = place_cards(playfield.clone(), vec![Card::Flower], Position::Tableau(7)).unwrap();
    assert_eq!(after.tableau[7], vec![Card::Flower]);

    assert_eq!(
        place_cards(playfield.clone(), vec![Card::Dragon(Suit::Red)], Position::Tableau(0)),
        None
    );
}

#[test]
fn run_is_placed_with_its_bottom_on_the_old_top() {
    let run = vec![Card::Number(Suit::Red, 4), Card::Number(Suit::Green, 3)];
    let after = place_cards(make_test_playfield(), run.clone(), Position::Tableau(6)).unwrap();
    assert_eq!(
        after.tableau[6],
        vec![
            Card::Number(Suit::Black, 6),
            Card::Number(Suit::Black, 5),
            Card::Number(Suit::Red, 4),
            Card::Number(Suit::Green, 3),
        ]
    );
    let after = place_cards(make_test_playfield(), run.clone(), Position::Tableau(7)).unwrap();
    assert_eq!(after.tableau[7], run);
    assert_eq!(place_cards(make_test_playfield(), run.clone(), Position::Tableau(5)), None);
}

#[test]
fn free_cell_exclusivity() {
    let card = Card::Number(Suit::Red, 7);
    let after = place_cards(make_test_playfield(), vec![card], Position::FreeCell(0)).unwrap();
    let mut expected = make_test_playfield();
    expected.freecells[0] = FreeCell::InUse(card);
    assert_eq!(after, expected);

    assert_eq!(place_cards(make_test_playfield(), vec![card], Position::FreeCell(1)), None);
    assert_eq!(place_cards(make_test_playfield(), vec![card], Position::FreeCell(2)), None);
    assert_eq!(
        place_cards(
            make_test_playfield(),
            vec![card, Card::Number(Suit::Green, 6)],
            Position::FreeCell(0)
        ),
        None
    );
    let after =
        place_cards(make_test_playfield(), vec![Card::Flower], Position::FreeCell(0)).unwrap();
    assert_eq!(after.freecells[0], FreeCell::InUse(Card::Flower));
}

#[test]
fn flower_slot_takes_the_flower_only() {
    let after = place_cards(empty_playfield(), vec![Card::Flower], Position::Flower).unwrap();
    let mut expected = empty_playfield();
    expected.flower = Some(Card::Flower);
    assert_eq!(after, expected);
    assert_eq!(
        place_cards(empty_playfield(), vec![Card::Number(Suit::Red, 1)], Position::Flower),
        None
    );
    assert_eq!(
        place_cards(empty_playfield(), vec![Card::Dragon(Suit::Red)], Position::Flower),
        None
    );
    assert_eq!(
        place_cards(empty_playfield(), vec![Card::Flower, Card::Flower], Position::Flower),
        None
    );
}

#[test]
fn pile_sequencing() {
    let green2 = Card::Number(Suit::Green, 2);
    let after = place_cards(make_test_playfield(), vec![green2], Position::Pile(1)).unwrap();
    let mut expected = make_test_playfield();
    expected.piles[1] = Some(green2);
    assert_eq!(after, expected);

    assert_eq!(
        place_cards(make_test_playfield(), vec![Card::Number(Suit::Red, 2)], Position::Pile(1)),
        None
    );
    assert_eq!(
        place_cards(make_test_playfield(), vec![Card::Number(Suit::Green, 3)], Position::Pile(1)),
        None
    );
    assert_eq!(
        place_cards(make_test_playfield(), vec![Card::Number(Suit::Green, 1)], Position::Pile(1)),
        None
    );
    assert_eq!(
        place_cards(make_test_playfield(), vec![Card::Dragon(Suit::Green)], Position::Pile(1)),
        None
    );
    assert_eq!(place_cards(make_test_playfield(), vec![Card::Flower], Position::Pile(0)), None);
    assert_eq!(
        place_cards(
            make_test_playfield(),
            vec![green2, Card::Number(Suit::Green, 3)],
            Position::Pile(1)
        ),
        None
    );
}

#[test]
fn empty_pile_takes_any_numbered_card() {
    let after =
        place_cards(make_test_playfield(), vec![Card::Number(Suit::Red, 1)], Position::Pile(0))
            .unwrap();
    assert_eq!(after.piles[0], Some(Card::Number(Suit::Red, 1)));
    let after =
        place_cards(make_test_playfield(), vec![Card::Number(Suit::Black, 5)], Position::Pile(2))
            .unwrap();
    assert_eq!(after.piles[2], Some(Card::Number(Suit::Black, 5)));
    assert_eq!(
        place_cards(make_test_playfield(), vec![Card::Dragon(Suit::Black)], Position::Pile(2)),
        None
    );
}

#[test]
fn pile_at_the_largest_rank_takes_nothing() {
    let mut playfield = empty_playfield();
    playfield.piles[0] = Some(Card::Number(Suit::Red, usize::MAX));
    assert_eq!(place_cards(playfield, vec![Card::Number(Suit::Red, 0)], Position::Pile(0)), None);
}

#[test]
fn end_to_end_move_between_columns() {
    let playfield = make_test_playfield();
    let m = Move(1, Position::Tableau(2), Position::Tableau(5));
    assert!(is_legal_move(&playfield, m));
    let after = apply_move(playfield.clone(), m).unwrap();
    assert_eq!(after.tableau[2], vec![Card::Number(Suit::Red, 4)]);
    assert_eq!(after.tableau[5], vec![Card::Number(Suit::Black, 4), Card::Number(Suit::Green, 3)]);
    let mut expected = make_test_playfield();
    expected.tableau[2] = vec![Card::Number(Suit::Red, 4)];
    expected.tableau[5] = vec![Card::Number(Suit::Black, 4), Card::Number(Suit::Green, 3)];
    assert_eq!(after, expected);
    assert_eq!(playfield, make_test_playfield());
}

#[test]
fn apply_move_between_cells_piles_and_columns() {
    let after = apply_move(
        make_test_playfield(),
        Move(1, Position::FreeCell(2), Position::Tableau(0)),
    )
    .unwrap();
    assert_eq!(after.freecells[2], FreeCell::Free);
    assert_eq!(after.tableau[0], vec![Card::Dragon(Suit::Black)]);

    let after =
        apply_move(make_test_playfield(), Move(1, Position::Tableau(3), Position::Pile(1))).unwrap();
    assert_eq!(after.piles[1], Some(Card::Number(Suit::Green, 2)));
    assert_eq!(after.tableau[3], vec![]);

    let after = apply_move(
        make_test_playfield(),
        Move(2, Position::Tableau(2), Position::Tableau(2)),
    )
    .unwrap();
    assert_eq!(after, make_test_playfield());
}

#[test]
fn rejected_move_hands_the_board_back_as_it_was() {
    let refused = [
        // refused at the pick-up
        Move(1, Position::Flower, Position::FreeCell(0)),
        Move(1, Position::Pile(1), Position::FreeCell(0)),
        Move(1, Position::FreeCell(1), Position::FreeCell(0)),
        Move(2, Position::Tableau(6), Position::Tableau(7)),
        Move(3, Position::Tableau(2), Position::Tableau(7)),
        // picked up, then refused at the placing
        Move(1, Position::Tableau(1), Position::FreeCell(1)),
        Move(1, Position::Tableau(1), Position::FreeCell(2)),
        Move(1, Position::Tableau(3), Position::Tableau(2)),
        Move(2, Position::Tableau(2), Position::FreeCell(0)),
        Move(1, Position::Tableau(2), Position::Flower),
        Move(1, Position::Tableau(4), Position::Pile(1)),
        Move(1, Position::FreeCell(2), Position::Tableau(5)),
    ];
    for m in refused {
        assert!(!is_legal_move(&make_test_playfield(), m));
        match apply_move(make_test_playfield(), m) {
            Ok(_) => panic!("the move should be refused"),
            Err(Rejected(board)) => assert_eq!(board, make_test_playfield()),
        }
    }
}

fn four_black_dragons() -> Playfield {
    Playfield {
        freecells: [
            FreeCell::InUse(Card::Dragon(Suit::Black)),
            FreeCell::InUse(Card::Dragon(Suit::Black)),
            FreeCell::InUse(Card::Number(Suit::Red, 3)),
        ],
        flower: Some(Card::Flower),
        piles: [None, Some(Card::Number(Suit::Green, 1)), None],
        tableau: [
            /* 0 */ vec![Card::Dragon(Suit::Black)],
            /* 1 */ vec![],
            /* 2 */ vec![Card::Number(Suit::Red, 4), Card::Dragon(Suit::Black)],
            /* 3 */ vec![Card::Dragon(Suit::Red)],
            /* 4 */ vec![],
            /* 5 */ vec![Card::Number(Suit::Green, 9)],
            /* 6 */ vec![],
            /* 7 */ vec![],
        ],
    }
}

#[test]
fn dragon_flip_success() {
    let after = flip_dragon(four_black_dragons(), Suit::Black).unwrap();
    let expected = Playfield {
        freecells: [FreeCell::Free, FreeCell::Flipped, FreeCell::InUse(Card::Number(Suit::Red, 3))],
        flower: Some(Card::Flower),
        piles: [None, Some(Card::Number(Suit::Green, 1)), None],
        tableau: [
            vec![],
            vec![],
            vec![Card::Number(Suit::Red, 4)],
            vec![Card::Dragon(Suit::Red)],
            vec![],
            vec![Card::Number(Suit::Green, 9)],
            vec![],
            vec![],
        ],
    };
    assert_eq!(after, expected);
    let flipped: usize = after.freecells.iter().filter(|c| **c == FreeCell::Flipped).count();
    assert_eq!(flipped, 1);
    for column in after.tableau.iter() {
        assert_eq!(count_of(column, Card::Dragon(Suit::Black)), 0);
    }
}

#[test]
fn dragon_flip_locks_the_highest_cell_that_can_host() {
    let mut playfield = four_black_dragons();
    playfield.freecells = [FreeCell::InUse(Card::Dragon(Suit::Black)), FreeCell::Free, FreeCell::Free];
    playfield.tableau[1] = vec![Card::Dragon(Suit::Black)];
    let after = flip_dragon(playfield, Suit::Black).unwrap();
    assert_eq!(after.freecells, [FreeCell::Free, FreeCell::Free, FreeCell::Flipped]);

    let mut playfield = four_black_dragons();
    playfield.freecells =
        [FreeCell::Free, FreeCell::Flipped, FreeCell::InUse(Card::Number(Suit::Red, 3))];
    playfield.tableau[1] = vec![Card::Dragon(Suit::Black)];
    playfield.tableau[4] = vec![Card::Dragon(Suit::Black)];
    let after = flip_dragon(playfield, Suit::Black).unwrap();
    assert_eq!(
        after.freecells,
        [FreeCell::Flipped, FreeCell::Flipped, FreeCell::InUse(Card::Number(Suit::Red, 3))]
    );
    assert_eq!(after.tableau[1], vec![]);
    assert_eq!(after.tableau[4], vec![]);

    let mut playfield = four_black_dragons();
    playfield.freecells = [
        FreeCell::InUse(Card::Dragon(Suit::Black)),
        FreeCell::InUse(Card::Dragon(Suit::Black)),
        FreeCell::InUse(Card::Dragon(Suit::Black)),
    ];
    playfield.tableau[2] = vec![Card::Number(Suit::Red, 4)];
    let after = flip_dragon(playfield, Suit::Black).unwrap();
    assert_eq!(after.freecells, [FreeCell::Free, FreeCell::Free, FreeCell::Flipped]);
}

#[test]
fn dragon_flip_wants_all_four_dragons_to_show() {
    // the fourth dragon lies under another card
    let mut playfield = four_black_dragons();
    playfield.tableau[2] =
        vec![Card::Number(Suit::Red, 4), Card::Dragon(Suit::Black), Card::Number(Suit::Green, 2)];
    let before = playfield.clone();
    assert_eq!(flip_dragon(playfield.clone(), Suit::Black), None);
    assert_eq!(playfield, before);
    // no dragon of the suit shows
    assert_eq!(flip_dragon(four_black_dragons(), Suit::Green), None);
    // one dragon of the suit shows
    assert_eq!(flip_dragon(four_black_dragons(), Suit::Red), None);
    // five show
    let mut playfield = four_black_dragons();
    playfield.tableau[7] = vec![Card::Dragon(Suit::Black)];
    assert_eq!(flip_dragon(playfield, Suit::Black), None);
}

#[test]
fn dragon_flip_wants_a_cell_to_lock() {
    let mut playfield = four_black_dragons();
    playfield.freecells = [
        FreeCell::InUse(Card::Number(Suit::Green, 8)),
        FreeCell::InUse(Card::Dragon(Suit::Red)),
        FreeCell::Flipped,
    ];
    playfield.tableau[1] = vec![Card::Dragon(Suit::Black)];
    playfield.tableau[4] = vec![Card::Dragon(Suit::Black)];
    assert_eq!(flip_dragon(playfield, Suit::Black), None);
}

#[test]
fn positions_and_moves_know_their_range() {
    assert!(Position::FreeCell(2).is_in_range());
    assert!(!Position::FreeCell(3).is_in_range());
    assert!(Position::Flower.is_in_range());
    assert!(Position::Pile(0).is_in_range());
    assert!(!Position::Pile(3).is_in_range());
    assert!(Position::Tableau(7).is_in_range());
    assert!(!Position::Tableau(8).is_in_range());
    assert!(Move(1, Position::Tableau(0), Position::Flower).is_valid());
    assert!(!Move(0, Position::Tableau(0), Position::Flower).is_valid());
    assert!(!Move(1, Position::Tableau(8), Position::Flower).is_valid());
    assert!(!Move(1, Position::Tableau(0), Position::Pile(9)).is_valid());
}

#[test]
fn rejected_flip_hands_the_board_back_as_it_was() {
    let mut buried = four_black_dragons();
    buried.tableau[2] =
        vec![Card::Number(Suit::Red, 4), Card::Dragon(Suit::Black), Card::Number(Suit::Green, 2)];
    match apply_flip(buried.clone(), Suit::Black) {
        Ok(_) => panic!("the flip should be refused"),
        Err(Rejected(board)) => assert_eq!(board, buried),
    }
    let mut full = four_black_dragons();
    full.freecells = [
        FreeCell::InUse(Card::Number(Suit::Green, 8)),
        FreeCell::InUse(Card::Dragon(Suit::Red)),
        FreeCell::Flipped,
    ];
    full.tableau[1] = vec![Card::Dragon(Suit::Black)];
    full.tableau[4] = vec![Card::Dragon(Suit::Black)];
    match apply_flip(full.clone(), Suit::Black) {
        Ok(_) => panic!("the flip should be refused"),
        Err(Rejected(board)) => assert_eq!(board, full),
    }
    assert_eq!(
        apply_flip(four_black_dragons(), Suit::Black).ok(),
        flip_dragon(four_black_dragons(), Suit::Black)
    );
}

fn cards_in_play(playfield: &Playfield) -> Vec<Card> {
    let mut cards: Vec<Card> = Vec::new();
    for cell in playfield.freecells.iter() {
        if let FreeCell::InUse(card) = cell {
            cards.push(*card);
        }
    }
    for column in playfield.tableau.iter() {
        cards.extend(column.iter().copied());
    }
    cards
}

#[test]
fn moves_conserve_the_cards_in_play() {
    let before = make_test_playfield();
    let between = [
        Move(2, Position::Tableau(2), Position::Tableau(6)),
        Move(1, Position::Tableau(1), Position::FreeCell(0)),
        Move(1, Position::FreeCell(2), Position::Tableau(7)),
    ];
    for m in between {
        let after = apply_move(make_test_playfield(), m).unwrap();
        for card in cards_in_play(&before) {
            assert_eq!(
                count_of(&cards_in_play(&after), card),
                count_of(&cards_in_play(&before), card)
            );
        }
        assert_eq!(cards_in_play(&after).len(), cards_in_play(&before).len());
        assert_eq!(after.freecells[1], FreeCell::Flipped);
    }
    let after =
        apply_move(make_test_playfield(), Move(1, Position::Tableau(3), Position::Pile(1))).unwrap();
    assert_eq!(cards_in_play(&after).len() + 1, cards_in_play(&before).len());
    assert_eq!(count_of(&cards_in_play(&after), Card::Number(Suit::Green, 2)), 0);
}

#[test]
fn flip_takes_four_dragons_out_of_play() {
    let before = four_black_dragons();
    let after = flip_dragon(four_black_dragons(), Suit::Black).unwrap();
    assert_eq!(count_of(&cards_in_play(&before), Card::Dragon(Suit::Black)), 4);
    assert_eq!(count_of(&cards_in_play(&after), Card::Dragon(Suit::Black)), 0);
    assert_eq!(cards_in_play(&after).len() + 4, cards_in_play(&before).len());
    assert_eq!(count_of(&cards_in_play(&after), Card::Dragon(Suit::Red)), 1);
}
