use set_game::cards::Colour::{Green, Purple, Red};
use set_game::cards::Number::{One, Three, Two};
use set_game::cards::Shading::{Empty, Full, Half};
use set_game::cards::Shape::{Diamond, Oval, Wave};
use set_game::cards::Card;
use set_game::notation::{
    card_string, digit_to_position, letter_to_index, read_choice, read_positions, Choice,
    ChoiceError,
};
use set_game::search::Move;

fn letters(line: &str) -> Vec<char> {
    line.chars().collect()
}

#[test]
fn keys_name_the_positions_column_by_column() {
    for (i, key) in "qazwsxedcrfvtgbyhnujm".chars().enumerate() {
        assert_eq!(letter_to_index(key), Ok(i));
        assert_eq!(letter_to_index(key.to_ascii_uppercase()), Ok(i));
    }
    assert_eq!(letter_to_index('p'), Err(()));
    assert_eq!(letter_to_index('k'), Err(()));
    assert_eq!(letter_to_index('1'), Err(()));
    assert_eq!(letter_to_index('\n'), Err(()));
}

#[test]
fn cards_are_written_in_four_letters() {
    assert_eq!(card_string(&Card::new(One, Oval, Empty, Red)), "1OER");
    assert_eq!(card_string(&Card::new(Two, Wave, Half, Green)), "2WHG");
    assert_eq!(card_string(&Card::new(Three, Diamond, Full, Purple)), "3DFP");
}

#[test]
fn a_line_is_read_as_a_choice() {
    assert_eq!(read_choice(&letters("p\n")), Ok(Choice::Draw3));
    assert_eq!(read_choice(&letters("Please")), Ok(Choice::Draw3));
    assert_eq!(read_choice(&letters("l")), Ok(Choice::Cheat));
    assert_eq!(read_choice(&letters("qaz\n")), Ok(Choice::Move(Move(0, 1, 2))));
    assert_eq!(read_choice(&letters("MJU and more")), Ok(Choice::Move(Move(20, 19, 18))));
    assert_eq!(read_choice(&letters("qq1")), Err(ChoiceError::NotUnderstood));
    assert_eq!(read_choice(&letters("qa\n")), Err(ChoiceError::NotUnderstood));
    assert_eq!(read_choice(&letters("qa")), Err(ChoiceError::TooFewCards));
    assert_eq!(read_choice(&letters("")), Err(ChoiceError::TooFewCards));
}

#[test]
fn digits_name_the_positions_of_the_projective_game() {
    for (i, digit) in "1234567".chars().enumerate() {
        assert_eq!(digit_to_position(digit).map(|pos| pos.get_index() as usize), Some(i));
    }
    assert!(digit_to_position('0').is_none());
    assert!(digit_to_position('8').is_none());
    assert!(digit_to_position('q').is_none());
    let read: Vec<u8> =
        read_positions(&letters("731")).unwrap().iter().map(|pos| pos.get_index()).collect();
    assert_eq!(read, vec![6, 2, 0]);
    assert!(read_positions(&letters("73a")).is_none());
    assert_eq!(read_positions(&letters("")).unwrap().len(), 0);
}
