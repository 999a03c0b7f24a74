use set_game::game::PlayError;
use set_game::projective::cards::{make_deck, make_shuffled_deck, Card, InvalidCardError};
use set_game::projective::game::{
    attempt_move, is_set, CardPos, CardPosError, Game, Move, MoveBuildError,
};

fn card(i: usize) -> Card {
    Card::from_int(i).unwrap()
}

fn cards(numbers: &[usize]) -> Vec<Card> {
    numbers.iter().map(|&i| card(i)).collect()
}

fn mve(positions: &[u8]) -> Move {
    Move::build(positions.iter().map(|&i| CardPos::build(i).unwrap()).collect()).unwrap()
}

fn positions(mve: &Move) -> Vec<u8> {
    mve.get_positions().iter().map(|pos| pos.get_index()).collect()
}

/// A game with the given cards in play, the first at position 0, and the
/// given deck, its top last.
fn game(deck: &[usize], in_play: &[usize]) -> Game {
    let mut all = cards(deck);
    all.extend(in_play.iter().rev().map(|&i| card(i)));
    Game::deal(all)
}

#[test]
fn cards_are_read_from_their_numbers() {
    let all = card(63);
    assert!(all.is_red() && all.is_orange() && all.is_yellow());
    assert!(all.is_green() && all.is_blue() && all.is_purple());
    let red = card(32);
    assert!(red.is_red() && !red.is_orange() && !red.is_purple());
    assert!(card(16).is_orange());
    assert!(card(8).is_yellow());
    assert!(card(4).is_green());
    assert!(card(2).is_blue());
    let purple = card(1);
    assert!(purple.is_purple() && !purple.is_red() && !purple.is_blue());
    let mixed = card(0b101001);
    assert!(mixed.is_red() && !mixed.is_orange() && mixed.is_yellow());
    assert!(!mixed.is_green() && !mixed.is_blue() && mixed.is_purple());
}

#[test]
fn numbers_without_a_card_are_refused() {
    assert_eq!(Card::from_int(0), Err(InvalidCardError));
    assert_eq!(Card::from_int(64), Err(InvalidCardError));
    assert_eq!(Card::from_int(1000), Err(InvalidCardError));
    assert!(Card::from_int(1).is_ok());
    assert!(Card::from_int(63).is_ok());
}

#[test]
fn the_deck_holds_each_of_the_63_cards_once() {
    let deck = make_deck();
    assert_eq!(deck.len(), 63);
    for (i, c) in deck.iter().enumerate() {
        assert_eq!(*c, card(i + 1));
    }
    let shuffled = make_shuffled_deck();
    assert_eq!(shuffled.len(), 63);
    for c in &deck {
        assert_eq!(shuffled.iter().filter(|&s| s == c).count(), 1);
    }
}

#[test]
fn positions_go_from_0_to_6() {
    for i in 0..=6 {
        assert_eq!(CardPos::build(i).unwrap().get_index(), i);
    }
    assert!(matches!(CardPos::build(7), Err(CardPosError)));
    assert!(matches!(CardPos::build(255), Err(CardPosError)));
}

#[test]
fn moves_need_three_different_positions() {
    let build = |v: &[u8]| Move::build(v.iter().map(|&i| CardPos::build(i).unwrap()).collect());
    assert!(matches!(build(&[]), Err(MoveBuildError::InsufficientCards)));
    assert!(matches!(build(&[1, 2]), Err(MoveBuildError::InsufficientCards)));
    assert!(matches!(build(&[1, 1]), Err(MoveBuildError::InsufficientCards)));
    assert!(matches!(build(&[1, 2, 1]), Err(MoveBuildError::RepeatCards)));
    assert!(matches!(build(&[0, 1, 2, 3, 3]), Err(MoveBuildError::RepeatCards)));
    assert_eq!(positions(&build(&[2, 5, 0]).unwrap()), vec![5, 2, 0]);
    assert_eq!(positions(&build(&[0, 1, 2, 3, 4, 5, 6]).unwrap()), vec![6, 5, 4, 3, 2, 1, 0]);
    assert_eq!(positions(&build(&[6, 3, 4, 1]).unwrap()), vec![6, 4, 3, 1]);
}

#[test]
fn a_new_game_has_seven_cards_in_play() {
    let game = Game::new();
    assert_eq!(game.in_play().len(), 7);
    assert_eq!(game.remaining_cards(), 56);
}

#[test]
fn cards_form_a_set_when_each_colour_is_on_an_even_number() {
    // 32 + 16, 16 + 8 and 32 + 8: each colour twice.
    let table = game(&[], &[48, 24, 40, 1, 2, 4, 7]);
    assert_eq!(table.in_play(), &cards(&[48, 24, 40, 1, 2, 4, 7])[..]);
    assert!(matches!(is_set(&table, &mve(&[0, 1, 2])), Ok(true)));
    assert!(matches!(is_set(&table, &mve(&[0, 1, 3])), Ok(false)));
    // 1, 2, 4 and 7: purple, blue and green twice each.
    assert!(matches!(is_set(&table, &mve(&[3, 4, 5, 6])), Ok(true)));
    assert!(matches!(is_set(&table, &mve(&[0, 1, 2, 3, 4, 5, 6])), Ok(true)));
    assert!(matches!(is_set(&table, &mve(&[0, 1, 2, 3])), Ok(false)));
    let small = game(&[], &[48, 24, 40]);
    assert!(matches!(is_set(&small, &mve(&[0, 1, 3])), Err(PlayError::InvalidMove)));
}

#[test]
fn a_set_is_replaced_from_the_deck() {
    let table = game(&[9, 10, 11, 12], &[48, 24, 40, 1, 2, 4, 7]);
    match attempt_move(table, &mve(&[1, 0, 2])) {
        Ok(next) => {
            assert_eq!(next.in_play(), &cards(&[10, 11, 12, 1, 2, 4, 7])[..]);
            assert_eq!(next.remaining_cards(), 1);
        }
        Err(_) => panic!("the cards form a set"),
    }
}

#[test]
fn a_set_leaves_when_the_deck_runs_out() {
    let table = game(&[9], &[48, 1, 24, 2, 40, 4, 7]);
    match attempt_move(table, &mve(&[0, 2, 4])) {
        Ok(next) => {
            assert_eq!(next.in_play(), &cards(&[1, 2, 9, 4, 7])[..]);
            assert_eq!(next.remaining_cards(), 0);
        }
        Err(_) => panic!("the cards form a set"),
    }
}

#[test]
fn a_refused_move_changes_nothing() {
    let table = game(&[9, 10, 11], &[48, 24, 40, 1, 2, 4, 7]);
    let table = match attempt_move(table, &mve(&[0, 1, 3])) {
        Err((back, PlayError::NotASet)) => back,
        _ => panic!("the cards form no set"),
    };
    assert_eq!(table.in_play(), &cards(&[48, 24, 40, 1, 2, 4, 7])[..]);
    assert_eq!(table.remaining_cards(), 3);
    let short = game(&[], &[48, 24, 40]);
    match attempt_move(short, &mve(&[0, 1, 6])) {
        Err((back, PlayError::InvalidMove)) => {
            assert_eq!(back.in_play(), &cards(&[48, 24, 40])[..]);
        }
        _ => panic!("position 6 holds no card"),
    }
}

#[test]
fn errors_say_what_went_wrong() {
    assert_eq!(CardPosError.to_string(), "Card position must be between 0 and 6 (inclusive)");
    assert_eq!(MoveBuildError::RepeatCards.to_string(), "Repeated card(s)");
    assert_eq!(
        MoveBuildError::InsufficientCards.to_string(),
        "Insufficient cards (need at least 3)"
    );
}
