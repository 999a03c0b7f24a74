//! The projective card, a non-empty choice among six colours, and the deck
//! of all 63 of them.

use crate::deck::shuffle;
use vstd::prelude::*;

verus! {

#[derive(Clone, Copy, Debug, PartialEq, Eq, Hash, Structural)]
pub struct Card {
    pub red: bool,
    pub orange: bool,
    pub yellow: bool,
    pub green: bool,
    pub blue: bool,
    pub purple: bool,
}

/// The number given was 0 or above 63, and stands for no card.
#[derive(Clone, Copy, Debug, PartialEq, Eq, Hash, Structural)]
pub struct InvalidCardError;

/// 1 for a colour that is there, 0 for one that is not.
pub open spec fn bit(present: bool) -> int {
    if present {
        1int
    } else {
        0int
    }
}

impl Card {
    /// The number that stands for the card: red counts 32, orange 16, yellow
    /// 8, green 4, blue 2 and purple 1.
    pub open spec fn code(self) -> int {
        32 * bit(self.red) + 16 * bit(self.orange) + 8 * bit(self.yellow) + 4 * bit(self.green)
            + 2 * bit(self.blue) + bit(self.purple)
    }

    /// The card that the number `i` stands for.
    pub open spec fn of(i: int) -> Card {
        Card {
            red: (i / 32) % 2 == 1,
            orange: (i / 16) % 2 == 1,
            yellow: (i / 8) % 2 == 1,
            green: (i / 4) % 2 == 1,
            blue: (i / 2) % 2 == 1,
            purple: i % 2 == 1,
        }
    }

    /// The card that `i` stands for, for `i` from 1 to 63.
    pub fn from_int(i: usize) -> (result: Result<Card, InvalidCardError>)
        ensures
            result is Ok <==> 1 <= i < 64,
            result matches Ok(card) ==> card.code() == i && card == Card::of(i as int),
    {
        if i == 0 || i >= 64 {
            return Err(InvalidCardError);
        }
        let v: u8 = i as u8;
        let card = Card {
            red: (v & 32) > 0,
            orange: (v & 16) > 0,
            yellow: (v & 8) > 0,
            green: (v & 4) > 0,
            blue: (v & 2) > 0,
            purple: (v & 1) > 0,
        };
        proof {
            assert(((v & 32) > 0) == ((v / 32) % 2 == 1)) by (bit_vector);
            assert(((v & 16) > 0) == ((v / 16) % 2 == 1)) by (bit_vector);
            assert(((v & 8) > 0) == ((v / 8) % 2 == 1)) by (bit_vector);
            assert(((v & 4) > 0) == ((v / 4) % 2 == 1)) by (bit_vector);
            assert(((v & 2) > 0) == ((v / 2) % 2 == 1)) by (bit_vector);
            assert(((v & 1) > 0) == (v % 2 == 1)) by (bit_vector);
            code_and_of_are_inverse(card, i as int);
        }
        Ok(card)
    }

    pub fn is_red(&self) -> (present: bool)
        ensures
            present == self.red,
    {
        self.red
    }

    pub fn is_orange(&self) -> (present: bool)
        ensures
            present == self.orange,
    {
        self.orange
    }

    pub fn is_yellow(&self) -> (present: bool)
        ensures
            present == self.yellow,
    {
        self.yellow
    }

    pub fn is_green(&self) -> (present: bool)
        ensures
            present == self.green,
    {
        self.green
    }

    pub fn is_blue(&self) -> (present: bool)
        ensures
            present == self.blue,
    {
        self.blue
    }

    pub fn is_purple(&self) -> (present: bool)
        ensures
            present == self.purple,
    {
        self.purple
    }
}

/// The numbers from 0 to 63 and the choices of colours stand for each other:
/// `code` and `of` undo each other.
pub proof fn code_and_of_are_inverse(card: Card, i: int)
    ensures
        0 <= card.code() < 64,
        Card::of(card.code()) == card,
        0 <= i < 64 ==> Card::of(i).code() == i,
{
    if 0 <= i < 64 {
        assert(i == 2 * (i / 2) + i % 2);
        assert(i / 2 == 2 * (i / 4) + (i / 2) % 2);
        assert(i / 4 == 2 * (i / 8) + (i / 4) % 2);
        assert(i / 8 == 2 * (i / 16) + (i / 8) % 2);
        assert(i / 16 == 2 * (i / 32) + (i / 16) % 2);
        assert(i / 32 == (i / 32) % 2);
    }
}

/// The 63 cards in the order of their numbers, from 1 to 63.
pub open spec fn full_deck() -> Seq<Card> {
    Seq::new(63, |i: int| Card::of(i + 1))
}

/// `deck` holds the cards of the full deck, in some order.
pub open spec fn is_shuffled_deck(deck: Seq<Card>) -> bool {
    deck.to_multiset() == full_deck().to_multiset()
}

/// The full deck has 63 cards, no card twice, and every card but the one
/// without a colour.
pub proof fn full_deck_has_every_card_once()
    ensures
        full_deck().len() == 63,
        full_deck().no_duplicates(),
        forall|card: Card| full_deck().contains(card) <==> card.code() != 0,
{
    assert forall|i: int, j: int| 0 <= i < 63 && 0 <= j < 63 && i != j implies full_deck()[i]
        != full_deck()[j] by {
        code_and_of_are_inverse(Card::of(i + 1), i + 1);
        code_and_of_are_inverse(Card::of(j + 1), j + 1);
    }
    assert forall|card: Card| full_deck().contains(card) <==> card.code() != 0 by {
        code_and_of_are_inverse(card, 0);
        if card.code() != 0 {
            assert(full_deck()[card.code() - 1] == card);
        }
        if full_deck().contains(card) {
            let i = choose|i: int| 0 <= i < 63 && full_deck()[i] == card;
            code_and_of_are_inverse(card, i + 1);
        }
    }
}

/// A shuffled deck has 63 cards, no card twice, and every card but the one
/// without a colour.
pub proof fn shuffled_deck_has_every_card_once(deck: Seq<Card>)
    requires
        is_shuffled_deck(deck),
    ensures
        deck.len() == 63,
        deck.no_duplicates(),
        forall|card: Card| deck.contains(card) <==> card.code() != 0,
{
    broadcast use vstd::seq_lib::group_to_multiset_ensures;

    full_deck_has_every_card_once();
    full_deck().lemma_multiset_has_no_duplicates();
    deck.lemma_multiset_has_no_duplicates_conv();
    assert(deck.len() == deck.to_multiset().len());
    assert(full_deck().len() == full_deck().to_multiset().len());
    assert forall|card: Card| deck.contains(card) <==> card.code() != 0 by {
        assert(full_deck().contains(card) <==> full_deck().to_multiset().count(card) > 0);
        assert(deck.contains(card) <==> deck.to_multiset().count(card) > 0);
    }
}

pub fn make_deck() -> (deck: Vec<Card>)
    ensures
        deck@ == full_deck(),
{
    let mut deck: Vec<Card> = Vec::with_capacity(63);
    let mut i: usize = 1;
    while i < 64
        invariant
            1 <= i <= 64,
            deck@.len() == i - 1,
            forall|j: int| 0 <= j < deck@.len() ==> deck@[j] == Card::of(j + 1),
        decreases 64 - i,
    {
        match Card::from_int(i) {
            Ok(card) => {
                deck.push(card);
            },
            Err(_) => {},
        }
        i += 1;
    }
    assert(deck@ =~= full_deck());
    deck
}

/// A full deck in random order.
pub fn make_shuffled_deck() -> (deck: Vec<Card>)
    ensures
        is_shuffled_deck(deck@),
        deck@.len() == 63,
        deck@.no_duplicates(),
        forall|card: Card| deck@.contains(card) <==> card.code() != 0,
{
    let mut deck = make_deck();
    shuffle(&mut deck);
    proof {
        shuffled_deck_has_every_card_once(deck@);
    }
    deck
}

} // verus!
