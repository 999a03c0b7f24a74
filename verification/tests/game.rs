use set_game::cards::Card;
use set_game::deck::make_deck;
use set_game::game::{attempt_move, draw_3, draw_until_12, find_sets, new_game, Game, PlayError};
use set_game::search::Move;

/// The places in the canonical deck of twelve cards that hold one set only,
/// at the positions 2, 5 and 9.
const PLAY: [usize; 12] = [1, 3, 0, 4, 9, 40, 10, 12, 13, 80, 29, 32];

/// A deck that deals the cards of `PLAY` and then has `deck` left, in the
/// order given.
fn stacked(deck: &[usize]) -> Vec<Card> {
    let canonical = make_deck();
    let mut out: Vec<Card> = deck.iter().map(|&i| canonical[i]).collect();
    for &i in PLAY.iter().rev() {
        out.push(canonical[i]);
    }
    out
}

fn cards(places: &[usize]) -> Vec<Card> {
    let canonical = make_deck();
    places.iter().map(|&i| canonical[i]).collect()
}

fn rest_of_deck() -> Vec<usize> {
    (0..81).filter(|i| !PLAY.contains(i)).collect()
}

#[test]
fn one_set_is_found_and_replaced_in_deck_order() {
    let mut game = Game::deal(stacked(&rest_of_deck()));
    assert_eq!(game.cards_in_play(), &cards(&PLAY)[..]);
    assert_eq!(game.remaining_cards(), 69);
    assert_eq!(find_sets(&game), vec![Move(2, 5, 9)]);
    assert_eq!(game.attempt_move(&Move(2, 5, 9)), Ok(()));
    assert_eq!(game.get_score(), 1);
    assert_eq!(game.remaining_cards(), 66);
    assert_eq!(
        game.cards_in_play(),
        &cards(&[1, 3, 79, 4, 9, 78, 10, 12, 13, 77, 29, 32])[..]
    );
}

#[test]
fn replacement_follows_the_order_of_the_move() {
    let mut game = Game::deal(stacked(&rest_of_deck()));
    assert_eq!(game.attempt_move(&Move(9, 2, 5)), Ok(()));
    assert_eq!(
        game.cards_in_play(),
        &cards(&[1, 3, 78, 4, 9, 77, 10, 12, 13, 79, 29, 32])[..]
    );
}

#[test]
fn a_repeated_position_is_an_invalid_move() {
    let mut game = Game::deal(stacked(&rest_of_deck()));
    assert_eq!(game.attempt_move(&Move(0, 0, 1)), Err(PlayError::InvalidMove));
    assert_eq!(game.attempt_move(&Move(0, 1, 1)), Err(PlayError::InvalidMove));
    assert_eq!(game.attempt_move(&Move(1, 0, 1)), Err(PlayError::InvalidMove));
    assert_eq!(game.get_score(), 0);
    assert_eq!(game.cards_in_play(), &cards(&PLAY)[..]);
    assert_eq!(game.remaining_cards(), 69);
    match attempt_move(game, &Move(0, 0, 1)) {
        Err((game, PlayError::InvalidMove)) => {
            assert_eq!(game.get_score(), 0);
            assert_eq!(game.cards_in_play(), &cards(&PLAY)[..]);
        }
        _ => panic!("the move is invalid"),
    }
}

#[test]
fn a_position_outside_the_play_area_is_an_invalid_move() {
    let mut game = Game::deal(stacked(&rest_of_deck()));
    assert_eq!(game.attempt_move(&Move(2, 5, 12)), Err(PlayError::InvalidMove));
    assert_eq!(game.attempt_move(&Move(12, 5, 9)), Err(PlayError::InvalidMove));
    assert_eq!(game.attempt_move(&Move(2, 1000, 9)), Err(PlayError::InvalidMove));
    assert_eq!(game.get_score(), 0);
    assert_eq!(game.cards_in_play(), &cards(&PLAY)[..]);
}

#[test]
fn a_wrong_guess_costs_a_point_and_moves_no_card() {
    let mut game = Game::deal(stacked(&rest_of_deck()));
    assert_eq!(game.attempt_move(&Move(0, 1, 2)), Err(PlayError::NotASet));
    assert_eq!(game.get_score(), -1);
    assert_eq!(game.cards_in_play(), &cards(&PLAY)[..]);
    assert_eq!(game.remaining_cards(), 69);
    match attempt_move(game, &Move(3, 4, 5)) {
        Err((game, PlayError::NotASet)) => assert_eq!(game.get_score(), -2),
        _ => panic!("the cards form no set"),
    }
}

#[test]
fn drawing_with_two_cards_left_changes_nothing() {
    let mut game = Game::deal(stacked(&[7, 8]));
    assert_eq!(game.remaining_cards(), 2);
    assert_eq!(game.draw_3(), Err(()));
    assert_eq!(game.get_score(), 0);
    assert_eq!(game.remaining_cards(), 2);
    assert_eq!(game.cards_in_play(), &cards(&PLAY)[..]);
    match draw_3(game) {
        Err(game) => {
            assert_eq!(game.get_score(), 0);
            assert_eq!(game.remaining_cards(), 2);
            assert_eq!(game.cards_in_play(), &cards(&PLAY)[..]);
        }
        Ok(_) => panic!("the deck has two cards only"),
    }
}

#[test]
fn drawing_three_cards_costs_a_point() {
    let mut game = Game::deal(stacked(&[7, 8, 11, 14]));
    assert_eq!(game.draw_3(), Ok(()));
    assert_eq!(game.get_score(), -1);
    assert_eq!(game.remaining_cards(), 1);
    let mut expected = cards(&PLAY);
    expected.extend(cards(&[14, 11, 8]));
    assert_eq!(game.cards_in_play(), &expected[..]);
    assert_eq!(game.draw_3(), Err(()));
    assert_eq!(game.get_score(), -1);
}

#[test]
fn a_set_leaves_in_order_when_the_deck_is_empty() {
    let mut game = Game::deal(stacked(&[]));
    assert_eq!(game.remaining_cards(), 0);
    assert_eq!(game.attempt_move(&Move(5, 9, 2)), Ok(()));
    assert_eq!(game.get_score(), 1);
    assert_eq!(game.cards_in_play(), &cards(&[1, 3, 4, 9, 10, 12, 13, 29, 32])[..]);
}

#[test]
fn a_crowded_play_area_shrinks_with_few_cards_moved() {
    // Fifteen cards in play, the set at 2, 5 and 9 below the last three
    // positions: the last three cards fill its places, the last one first.
    let mut game = Game::deal(stacked(&[7, 8, 11, 14]));
    assert_eq!(game.draw_3(), Ok(()));
    assert_eq!(game.attempt_move(&Move(2, 5, 9)), Ok(()));
    assert_eq!(game.get_score(), 0);
    assert_eq!(game.remaining_cards(), 1);
    assert_eq!(
        game.cards_in_play(),
        &cards(&[1, 3, 8, 4, 9, 11, 10, 12, 13, 14, 29, 32])[..]
    );
}

#[test]
fn a_crowded_play_area_drops_the_cards_of_the_set_at_its_end() {
    // The cards at the positions 5, 13 and 14 form a set: the last two
    // leave, and the card at position 12 takes the place of the third.
    let mut game = Game::deal(stacked(&[7, 78, 2, 5]));
    assert_eq!(game.draw_3(), Ok(()));
    let mut dealt = cards(&PLAY);
    dealt.extend(cards(&[5, 2, 78]));
    assert_eq!(game.cards_in_play(), &dealt[..]);
    assert_eq!(game.attempt_move(&Move(13, 5, 14)), Ok(()));
    assert_eq!(
        game.cards_in_play(),
        &cards(&[1, 3, 0, 4, 9, 5, 10, 12, 13, 80, 29, 32])[..]
    );
    assert_eq!(game.remaining_cards(), 1);
}

#[test]
fn new_games_start_with_twelve_cards_and_no_point() {
    let game = new_game();
    assert_eq!(game.cards_in_play().len(), 12);
    assert_eq!(game.remaining_cards(), 69);
    assert_eq!(game.get_score(), 0);
    let game = Game::new();
    assert_eq!(game.cards_in_play().len(), 12);
    assert_eq!(game.remaining_cards(), 69);
    assert_eq!(game.get_score(), 0);
    let mut all: Vec<Card> = game.cards_in_play().to_vec();
    for card in make_deck() {
        let in_play = all.iter().filter(|&&c| c == card).count();
        assert!(in_play <= 1);
    }
    all.clear();
}

#[test]
fn dealing_stops_when_the_deck_runs_out() {
    let game = Game::deal(cards(&[4, 5, 6]));
    assert_eq!(game.cards_in_play(), &cards(&[6, 5, 4])[..]);
    assert_eq!(game.remaining_cards(), 0);
    match draw_until_12(game) {
        Err(game) => assert_eq!(game.cards_in_play().len(), 3),
        Ok(_) => panic!("three cards cannot make twelve"),
    }
    match draw_until_12(Game::deal(stacked(&[7, 8]))) {
        Ok(game) => {
            assert_eq!(game.cards_in_play().len(), 12);
            assert_eq!(game.remaining_cards(), 2);
        }
        Err(_) => panic!("twelve cards are in play"),
    }
}

#[test]
fn a_whole_game_keeps_its_books() {
    let mut game = new_game();
    let mut taken = 0;
    let mut score = 0;
    loop {
        assert_eq!(game.cards_in_play().len() + game.remaining_cards(), 81 - 3 * taken);
        assert_eq!(game.get_score(), score);
        let sets = find_sets(&game);
        match sets.first() {
            Some(mve) => {
                let before = game.cards_in_play().len();
                let left = game.remaining_cards();
                match attempt_move(game, mve) {
                    Ok(next) => game = next,
                    Err(_) => panic!("the cards form a set"),
                }
                taken += 1;
                score += 1;
                if left > 0 && before == 12 {
                    assert_eq!(game.cards_in_play().len(), 12);
                } else {
                    assert_eq!(game.cards_in_play().len(), before - 3);
                }
            }
            None => match draw_3(game) {
                Ok(next) => {
                    game = next;
                    score -= 1;
                }
                Err(last) => {
                    assert!(last.remaining_cards() < 3);
                    assert_eq!(last.get_score(), score);
                    break;
                }
            },
        }
    }
}
