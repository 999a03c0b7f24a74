use set_game::cards::Colour::{Green, Purple, Red};
use set_game::cards::Number::{One, Three, Two};
use set_game::cards::Shading::{Empty, Full, Half};
use set_game::cards::Shape::{Diamond, Oval, Wave};
use set_game::cards::Card;
use set_game::deck::{make_deck, make_shuffled_deck};
use set_game::isolated::engine::make_unshuffled_deck;

fn count(deck: &[Card], card: Card) -> usize {
    deck.iter().filter(|&&c| c == card).count()
}

#[test]
fn test_make_deck() {
    let deck = make_deck();
    assert_eq!(deck.len(), 81);
    assert_eq!(count(&deck, Card::new(One, Oval, Half, Purple)), 1);
    assert_eq!(count(&deck, Card::new(Three, Wave, Full, Green)), 1);
    assert_eq!(count(&deck, Card::new(Two, Diamond, Empty, Red)), 1);
}

#[test]
fn backend_test_make_deck() {
    let deck = make_deck();
    assert_eq!(deck.len(), 81);
    assert_eq!(count(&deck, Card::new(One, Oval, Half, Purple)), 1);
    assert_eq!(count(&deck, Card::new(Three, Wave, Full, Green)), 1);
    assert_eq!(count(&deck, Card::new(Two, Diamond, Empty, Red)), 1);
}

#[test]
fn core_test_make_deck() {
    let deck = make_unshuffled_deck();
    assert_eq!(deck.len(), 81);
    assert_eq!(count(&deck, Card::new(One, Oval, Half, Purple)), 1);
    assert_eq!(count(&deck, Card::new(Three, Wave, Full, Green)), 1);
    assert_eq!(count(&deck, Card::new(Two, Diamond, Empty, Red)), 1);
}

#[test]
fn test_make_shuffled_deck() {
    let deck = make_shuffled_deck();
    assert_eq!(deck.len(), 81);
    assert_eq!(count(&deck, Card::new(One, Oval, Half, Purple)), 1);
    assert_eq!(count(&deck, Card::new(Three, Wave, Full, Green)), 1);
    assert_eq!(count(&deck, Card::new(Two, Diamond, Empty, Red)), 1);
}

#[test]
fn backend_test_make_shuffled_deck() {
    let deck = make_shuffled_deck();
    assert_eq!(deck.len(), 81);
    assert_eq!(count(&deck, Card::new(One, Oval, Half, Purple)), 1);
    assert_eq!(count(&deck, Card::new(Three, Wave, Full, Green)), 1);
    assert_eq!(count(&deck, Card::new(Two, Diamond, Empty, Red)), 1);
}

#[test]
fn core_test_make_shuffled_deck() {
    let deck = make_shuffled_deck();
    assert_eq!(deck.len(), 81);
    assert_eq!(count(&deck, Card::new(One, Oval, Half, Purple)), 1);
    assert_eq!(count(&deck, Card::new(Three, Wave, Full, Green)), 1);
    assert_eq!(count(&deck, Card::new(Two, Diamond, Empty, Red)), 1);
}

#[test]
fn deck_is_in_canonical_order() {
    let deck = make_deck();
    assert_eq!(deck[0], Card::new(One, Oval, Empty, Red));
    assert_eq!(deck[1], Card::new(One, Oval, Empty, Green));
    assert_eq!(deck[2], Card::new(One, Oval, Empty, Purple));
    assert_eq!(deck[3], Card::new(One, Oval, Half, Red));
    assert_eq!(deck[9], Card::new(One, Wave, Empty, Red));
    assert_eq!(deck[27], Card::new(Two, Oval, Empty, Red));
    assert_eq!(deck[80], Card::new(Three, Diamond, Full, Purple));
}

#[test]
fn deck_has_no_card_twice_and_misses_none() {
    let deck = make_deck();
    for (i, a) in deck.iter().enumerate() {
        for b in deck.iter().skip(i + 1) {
            assert_ne!(a, b);
        }
    }
    let shuffled = make_shuffled_deck();
    for card in &deck {
        assert_eq!(count(&shuffled, *card), 1);
    }
}

#[test]
fn shuffling_changes_the_order() {
    let canonical = make_deck();
    let moved = (0..5).any(|_| make_shuffled_deck() != canonical);
    assert!(moved);
    let projective = set_game::projective::cards::make_deck();
    let moved = (0..5).any(|_| set_game::projective::cards::make_shuffled_deck() != projective);
    assert!(moved);
}
