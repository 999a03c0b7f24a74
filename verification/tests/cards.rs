use set_game::cards::Colour::{Green, Purple, Red};
use set_game::cards::Number::{One, Three, Two};
use set_game::cards::Shading::{Empty, Full, Half};
use set_game::cards::Shape::{Diamond, Oval, Wave};
use set_game::cards::{is_set, third_card, Card};
use set_game::deck::make_deck;

#[test]
fn is_set_diff_num() {
    assert!(is_set(&Card::new(One, Oval, Empty, Red), &Card::new(Two, Oval, Empty, Red), &Card::new(Three, Oval, Empty, Red)));
    assert!(is_set(&Card::new(Three, Oval, Empty, Red), &Card::new(One, Oval, Empty, Red), &Card::new(Two, Oval, Empty, Red)));
}

#[test]
fn is_set_diff_shape() {
    assert!(is_set(&Card::new(One, Oval, Empty, Red), &Card::new(One, Wave, Empty, Red), &Card::new(One, Diamond, Empty, Red)));
}

#[test]
fn is_set_diff_shading() {
    assert!(is_set(&Card::new(Two, Diamond, Half, Green), &Card::new(Two, Diamond, Empty, Green), &Card::new(Two, Diamond, Full, Green)));
}

#[test]
fn is_set_diff_colour() {
    assert!(is_set(&Card::new(Two, Diamond, Half, Green), &Card::new(Two, Diamond, Half, Red), &Card::new(Two, Diamond, Half, Purple)));
}

#[test]
fn is_set_all_diff() {
    assert!(is_set(&Card::new(One, Oval, Half, Green), &Card::new(Two, Wave, Empty, Purple), &Card::new(Three, Diamond, Full, Red)));
}

#[test]
fn is_set_wrong_num() {
    assert!(!is_set(&Card::new(One, Oval, Empty, Red), &Card::new(One, Wave, Empty, Red), &Card::new(Two, Diamond, Empty, Red)));
}

#[test]
fn is_set_wrong_shape() {
    assert!(!is_set(&Card::new(One, Oval, Half, Green), &Card::new(Two, Wave, Empty, Purple), &Card::new(Three, Wave, Full, Red)));
}

#[test]
fn backend_is_set_diff_num() {
    assert!(is_set(&Card::new(One, Oval, Empty, Red), &Card::new(Two, Oval, Empty, Red), &Card::new(Three, Oval, Empty, Red)));
    assert!(is_set(&Card::new(Three, Oval, Empty, Red), &Card::new(One, Oval, Empty, Red), &Card::new(Two, Oval, Empty, Red)));
}

#[test]
fn backend_is_set_diff_shape() {
    assert!(is_set(&Card::new(One, Oval, Empty, Red), &Card::new(One, Wave, Empty, Red), &Card::new(One, Diamond, Empty, Red)));
}

#[test]
fn backend_is_set_diff_shading() {
    assert!(is_set(&Card::new(Two, Diamond, Half, Green), &Card::new(Two, Diamond, Empty, Green), &Card::new(Two, Diamond, Full, Green)));
}

#[test]
fn backend_is_set_diff_colour() {
    assert!(is_set(&Card::new(Two, Diamond, Half, Green), &Card::new(Two, Diamond, Half, Red), &Card::new(Two, Diamond, Half, Purple)));
}

#[test]
fn backend_is_set_all_diff() {
    assert!(is_set(&Card::new(One, Oval, Half, Green), &Card::new(Two, Wave, Empty, Purple), &Card::new(Three, Diamond, Full, Red)));
}

#[test]
fn backend_is_set_wrong_num() {
    assert!(!is_set(&Card::new(One, Oval, Empty, Red), &Card::new(One, Wave, Empty, Red), &Card::new(Two, Diamond, Empty, Red)));
}

#[test]
fn backend_is_set_wrong_shape() {
    assert!(!is_set(&Card::new(One, Oval, Half, Green), &Card::new(Two, Wave, Empty, Purple), &Card::new(Three, Wave, Full, Red)));
}

#[test]
fn core_is_set_diff_num() {
    assert!(is_set(&Card::new(One, Oval, Empty, Red), &Card::new(Two, Oval, Empty, Red), &Card::new(Three, Oval, Empty, Red)));
    assert!(is_set(&Card::new(Three, Oval, Empty, Red), &Card::new(One, Oval, Empty, Red), &Card::new(Two, Oval, Empty, Red)));
}

#[test]
fn core_is_set_diff_shape() {
    assert!(is_set(&Card::new(One, Oval, Empty, Red), &Card::new(One, Wave, Empty, Red), &Card::new(One, Diamond, Empty, Red)));
}

#[test]
fn core_is_set_diff_shading() {
    assert!(is_set(&Card::new(Two, Diamond, Half, Green), &Card::new(Two, Diamond, Empty, Green), &Card::new(Two, Diamond, Full, Green)));
}

#[test]
fn core_is_set_diff_colour() {
    assert!(is_set(&Card::new(Two, Diamond, Half, Green), &Card::new(Two, Diamond, Half, Red), &Card::new(Two, Diamond, Half, Purple)));
}

#[test]
fn core_is_set_all_diff() {
    assert!(is_set(&Card::new(One, Oval, Half, Green), &Card::new(Two, Wave, Empty, Purple), &Card::new(Three, Diamond, Full, Red)));
}

#[test]
fn core_is_set_wrong_num() {
    assert!(!is_set(&Card::new(One, Oval, Empty, Red), &Card::new(One, Wave, Empty, Red), &Card::new(Two, Diamond, Empty, Red)));
}

#[test]
fn core_is_set_wrong_shape() {
    assert!(!is_set(&Card::new(One, Oval, Half, Green), &Card::new(Two, Wave, Empty, Purple), &Card::new(Three, Wave, Full, Red)));
}

#[test]
fn third_card_test() {
    let deck = make_deck();
    for c1 in &deck {
        for c2 in &deck {
            if c1 == c2 {
                continue;
            }
            let target_c3 = third_card(c1, c2);
            for c3 in &deck {
                assert_eq!(c3 == &target_c3, is_set(c1, c2, c3))
            }
        }
    }
}

#[test]
fn is_set_rejects_a_repeated_card() {
    let card = Card::new(One, Oval, Empty, Red);
    let other = Card::new(Two, Oval, Empty, Red);
    assert!(!is_set(&card, &card, &card));
    assert!(!is_set(&card, &card, &other));
    assert!(!is_set(&card, &other, &card));
    assert!(!is_set(&other, &card, &card));
}

#[test]
fn is_set_in_any_order() {
    let deck = make_deck();
    let a = deck[3];
    let b = deck[47];
    for c in &deck {
        let expected = is_set(&a, &b, c);
        assert_eq!(is_set(&a, c, &b), expected);
        assert_eq!(is_set(&b, &a, c), expected);
        assert_eq!(is_set(&b, c, &a), expected);
        assert_eq!(is_set(c, &a, &b), expected);
        assert_eq!(is_set(c, &b, &a), expected);
    }
}

#[test]
fn third_card_of_two_cards() {
    let a = Card::new(One, Oval, Empty, Red);
    let b = Card::new(Two, Oval, Half, Red);
    assert_eq!(third_card(&a, &b), Card::new(Three, Oval, Full, Red));
    assert_eq!(third_card(&b, &a), Card::new(Three, Oval, Full, Red));
}

#[test]
fn getters_read_the_attributes() {
    let card = Card::new(Three, Wave, Half, Purple);
    assert_eq!(card.get_number(), Three);
    assert_eq!(card.get_shape(), Wave);
    assert_eq!(card.get_shading(), Half);
    assert_eq!(card.get_colour(), Purple);
}

#[test]
fn to_int_is_the_place_in_the_deck() {
    assert_eq!(Card::new(One, Oval, Empty, Red).to_int(), 0);
    assert_eq!(Card::new(Two, Oval, Empty, Red).to_int(), 27);
    assert_eq!(Card::new(Three, Diamond, Full, Purple).to_int(), 80);
    assert_eq!(Card::new(Two, Wave, Half, Green).to_int(), 27 + 9 + 3 + 1);
    let deck = make_deck();
    for (i, card) in deck.iter().enumerate() {
        assert_eq!(card.to_int() as usize, i);
    }
}
