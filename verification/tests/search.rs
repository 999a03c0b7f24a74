use set_game::cards::Card;
use set_game::deck::make_deck;
use set_game::search::{find_sets_among, has_set, sorted_move, Move};

fn cards(places: &[usize]) -> Vec<Card> {
    let canonical = make_deck();
    places.iter().map(|&i| canonical[i]).collect()
}

#[test]
fn the_planted_set_is_found_and_nothing_else() {
    let play = cards(&[1, 3, 0, 4, 9, 40, 10, 12, 13, 80, 29, 32]);
    assert_eq!(find_sets_among(&play), vec![Move(2, 5, 9)]);
    assert!(has_set(&play));
}

#[test]
fn sets_come_in_the_order_of_their_positions() {
    let play = cards(&[0, 1, 2, 3, 4, 5, 6, 7, 8]);
    assert_eq!(
        find_sets_among(&play),
        vec![
            Move(0, 1, 2),
            Move(0, 3, 6),
            Move(0, 4, 8),
            Move(0, 5, 7),
            Move(1, 3, 8),
            Move(1, 4, 7),
            Move(1, 5, 6),
            Move(2, 3, 7),
            Move(2, 4, 6),
            Move(2, 5, 8),
            Move(3, 4, 5),
            Move(6, 7, 8),
        ]
    );
}

#[test]
fn no_set_among_few_or_unmatched_cards() {
    assert_eq!(find_sets_among(&[]), vec![]);
    assert!(!has_set(&[]));
    assert!(!has_set(&cards(&[0, 1])));
    let free = cards(&[0, 1, 3, 4, 9, 10, 12, 13]);
    assert_eq!(find_sets_among(&free), vec![]);
    assert!(!has_set(&free));
    assert!(has_set(&cards(&[0, 1, 2])));
}

#[test]
fn a_card_held_twice_makes_no_set() {
    let play = cards(&[0, 0, 0, 1]);
    assert_eq!(find_sets_among(&play), vec![]);
}

#[test]
fn sorted_move_puts_the_positions_in_order() {
    assert_eq!(sorted_move(&Move(1, 2, 3)), vec![1, 2, 3]);
    assert_eq!(sorted_move(&Move(3, 2, 1)), vec![1, 2, 3]);
    assert_eq!(sorted_move(&Move(2, 3, 1)), vec![1, 2, 3]);
    assert_eq!(sorted_move(&Move(9, 2, 5)), vec![2, 5, 9]);
    assert_eq!(sorted_move(&Move(5, 5, 1)), vec![1, 5, 5]);
}
