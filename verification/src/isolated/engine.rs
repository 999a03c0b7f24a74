//! The deck and the score of a marked game, and its marked cards.

use crate::cards::{forms_set, is_set, Card};
use crate::deck::{full_deck, is_shuffled_deck, make_deck, make_shuffled_deck};
use std::marker::PhantomData;
use vstd::prelude::*;

verus! {

/// The number of cards in play that the game keeps to while the deck lasts.
pub const STEADY_SIZE: usize = 12;

/// A card in play, marked with the game that dealt it.
#[derive(Debug)]
pub struct GameCard<'a> {
    card: Card,
    phantom: PhantomData<&'a mut &'a ()>,
}

impl<'a> View for GameCard<'a> {
    type V = Card;

    closed spec fn view(&self) -> Card {
        self.card
    }
}

impl<'a> GameCard<'a> {
    pub fn get_card(&self) -> (card: &Card)
        ensures
            *card == self@,
    {
        &self.card
    }
}

/// The cards that the marked cards show.
pub open spec fn faces<'a>(cards: Seq<GameCard<'a>>) -> Seq<Card> {
    cards.map_values(|card: GameCard<'a>| card@)
}

/// What the core of a game holds: the deck with its top last, the number of
/// its cards that are in play, and the score.
pub struct CoreState {
    pub deck: Seq<Card>,
    pub extant: nat,
    pub score: int,
}

impl CoreState {
    /// The core after three cards left the top of the deck for the play
    /// area.
    pub open spec fn after_dealing_3(self) -> CoreState {
        CoreState {
            deck: self.deck.take(self.deck.len() - 3),
            extant: self.extant + 3,
            score: self.score,
        }
    }

    /// The three cards at the top of the deck, the top card first.
    pub open spec fn top_3(self) -> Seq<Card> {
        let d = self.deck.len();
        seq![self.deck[d - 1], self.deck[d - 2], self.deck[d - 3]]
    }

    /// Whether three cards are dealt for a set that was taken: the play area
    /// would else fall below twelve cards, and the deck has the three.
    pub open spec fn refills(self) -> bool {
        self.extant - 3 < STEADY_SIZE && self.deck.len() >= 3
    }

    /// The three cards can be played: for a set, the core counts three
    /// cards in play and the score has room for a point more; for no set,
    /// the score has room for a point less.
    pub open spec fn admits(self, a: Card, b: Card, c: Card) -> bool {
        if forms_set(a, b, c) {
            self.extant >= 3 && self.score < i32::MAX
        } else {
            self.score > i32::MIN
        }
    }

    /// The core after a set of three cards in play was taken.
    pub open spec fn after_set(self) -> CoreState {
        let taken = CoreState {
            deck: self.deck,
            extant: (self.extant - 3) as nat,
            score: self.score + 1,
        };
        if self.refills() {
            taken.after_dealing_3()
        } else {
            taken
        }
    }
}

#[derive(Debug)]
pub struct GameCore<'a> {
    deck: Vec<Card>,
    extant_cards: usize,
    score: i32,
    mark_invariant: PhantomData<&'a mut &'a ()>,
}

impl<'a> View for GameCore<'a> {
    type V = CoreState;

    closed spec fn view(&self) -> CoreState {
        CoreState {
            deck: self.deck@,
            extant: self.extant_cards as nat,
            score: self.score as int,
        }
    }
}

impl<'a> GameCore<'a> {
    /// The core of a game on the given deck, with the first twelve cards of
    /// the deck as the cards in play.
    pub(crate) fn new(deck: Vec<Card>) -> (dealt: (GameCore<'a>, [GameCard<'a>; 12]))
        requires
            deck@.len() >= 12,
        ensures
            dealt.0@ == (CoreState { deck: deck@.skip(12), extant: 12, score: 0 }),
            faces(dealt.1@) == deck@.take(12),
    {
        let mut first = deck;
        let rest = first.split_off(12);
        let cards: [GameCard<'a>; 12] = [
            GameCard { card: first[0], phantom: PhantomData },
            GameCard { card: first[1], phantom: PhantomData },
            GameCard { card: first[2], phantom: PhantomData },
            GameCard { card: first[3], phantom: PhantomData },
            GameCard { card: first[4], phantom: PhantomData },
            GameCard { card: first[5], phantom: PhantomData },
            GameCard { card: first[6], phantom: PhantomData },
            GameCard { card: first[7], phantom: PhantomData },
            GameCard { card: first[8], phantom: PhantomData },
            GameCard { card: first[9], phantom: PhantomData },
            GameCard { card: first[10], phantom: PhantomData },
            GameCard { card: first[11], phantom: PhantomData },
        ];
        let core = GameCore { deck: rest, extant_cards: 12, score: 0, mark_invariant: PhantomData };
        assert(faces(cards@) =~= deck@.take(12));
        assert(rest@ =~= deck@.skip(12));
        (core, cards)
    }

    pub fn remaining_cards(&self) -> (count: usize)
        ensures
            count == self@.deck.len(),
    {
        self.deck.len()
    }

    pub fn get_score(&self) -> (score: i32)
        ensures
            score == self@.score,
    {
        self.score
    }

    /// The number of cards that the core counts in play.
    pub fn extant_cards(&self) -> (count: usize)
        ensures
            count == self@.extant,
    {
        self.extant_cards
    }

    /// Deals three more cards, at the cost of a point. With fewer than three
    /// cards in the deck nothing changes.
    pub fn draw_3(&mut self) -> (drawn: Option<[GameCard<'a>; 3]>)
        requires
            old(self)@.deck.len() >= 3 ==> old(self)@.score > i32::MIN && old(self)@.extant + 3
                <= usize::MAX,
        ensures
            drawn is Some <==> old(self)@.deck.len() >= 3,
            match drawn {
                Some(cards) => {
                    &&& faces(cards@) == old(self)@.top_3()
                    &&& final(self)@ == (CoreState {
                        score: old(self)@.score - 1,
                        ..old(self)@.after_dealing_3()
                    })
                },
                None => final(self)@ == old(self)@,
            },
    {
        let out = self.draw_3_internal();
        if out.is_some() {
            self.score = self.score - 1;
        }
        out
    }

    /// Deals three more cards. With fewer than three cards in the deck
    /// nothing changes.
    fn draw_3_internal(&mut self) -> (drawn: Option<[GameCard<'a>; 3]>)
        requires
            old(self)@.deck.len() >= 3 ==> old(self)@.extant + 3 <= usize::MAX,
        ensures
            drawn is Some <==> old(self)@.deck.len() >= 3,
            match drawn {
                Some(cards) => {
                    &&& faces(cards@) == old(self)@.top_3()
                    &&& final(self)@ == old(self)@.after_dealing_3()
                },
                None => final(self)@ == old(self)@,
            },
    {
        if self.deck.len() < 3 {
            return None;
        }
        let first = self.deck.pop().unwrap();
        let second = self.deck.pop().unwrap();
        let third = self.deck.pop().unwrap();
        let cards: [GameCard<'a>; 3] = [
            GameCard { card: first, phantom: PhantomData },
            GameCard { card: second, phantom: PhantomData },
            GameCard { card: third, phantom: PhantomData },
        ];
        self.extant_cards = self.extant_cards + 3;
        assert(faces(cards@) =~= old(self)@.top_3());
        assert(self.deck@ =~= old(self)@.deck.take(old(self)@.deck.len() - 3));
        Some(cards)
    }

    /// Takes three cards from play. If they form a set, this wins a point,
    /// and three cards are dealt for them where the play area would else fall
    /// below twelve cards. If they form none, this costs a point and the
    /// cards come back.
    pub fn make_move(&mut self, cards: [GameCard<'a>; 3]) -> (result: Result<
        Option<[GameCard<'a>; 3]>,
        [GameCard<'a>; 3],
    >)
        requires
            old(self)@.admits(cards@[0]@, cards@[1]@, cards@[2]@),
        ensures
            result is Ok <==> forms_set(cards@[0]@, cards@[1]@, cards@[2]@),
            match result {
                Ok(dealt) => {
                    &&& final(self)@ == old(self)@.after_set()
                    &&& dealt is Some <==> old(self)@.refills()
                    &&& dealt matches Some(new_cards) ==> faces(new_cards@) == old(self)@.top_3()
                },
                Err(back) => {
                    &&& back == cards
                    &&& final(self)@ == (CoreState { score: old(self)@.score - 1, ..old(self)@ })
                },
            },
    {
        if is_set(cards[0].get_card(), cards[1].get_card(), cards[2].get_card()) {
            self.score = self.score + 1;
            self.extant_cards = self.extant_cards - 3;
            if self.extant_cards < STEADY_SIZE {
                Ok(self.draw_3_internal())
            } else {
                Ok(None)
            }
        } else {
            self.score = self.score - 1;
            Err(cards)
        }
    }
}

/// The freshly dealt game: twelve cards in play from the given deck, the
/// rest of it in the core, and no point yet.
pub open spec fn dealt_from<'a>(
    core: GameCore<'a>,
    cards: [GameCard<'a>; 12],
    deck: Seq<Card>,
) -> bool {
    &&& core@ == (CoreState { deck: deck.skip(12), extant: 12, score: 0 })
    &&& faces(cards@) == deck.take(12)
}

pub struct GameMaker;

impl GameMaker {
    /// Hands a game on a freshly shuffled full deck to `func`. Its cards
    /// carry a mark of their own, so that they fit no other game.
    pub fn with_core<F: for <'any> FnOnce((GameCore<'any>, [GameCard<'any>; 12]))>(&self, func: F)
        requires
            forall|core: GameCore<'static>, cards: [GameCard<'static>; 12], deck: Seq<Card>|
                is_shuffled_deck(deck) && dealt_from(core, cards, deck) ==> func.requires(
                    ((core, cards),),
                ),
        ensures
            exists|core: GameCore<'static>, cards: [GameCard<'static>; 12], deck: Seq<Card>|
                is_shuffled_deck(deck) && dealt_from(core, cards, deck) && func.ensures(
                    ((core, cards),),
                    (),
                ),
    {
        let deck = make_shuffled_deck();
        let ghost shuffled = deck@;
        let dealt = GameCore::new(deck);
        assert(dealt_from(dealt.0, dealt.1, shuffled));
        func(dealt)
    }

    /// Hands a game on the full deck in canonical order to `func`.
    pub fn with_unshuffled_core<F: for <'any> FnOnce((GameCore<'any>, [GameCard<'any>; 12]))>(
        &self,
        func: F,
    )
        requires
            forall|core: GameCore<'static>, cards: [GameCard<'static>; 12]|
                dealt_from(core, cards, full_deck()) ==> func.requires(((core, cards),)),
        ensures
            exists|core: GameCore<'static>, cards: [GameCard<'static>; 12]|
                dealt_from(core, cards, full_deck()) && func.ensures(((core, cards),), ()),
    {
        let dealt = GameCore::new(make_unshuffled_deck());
        assert(dealt_from(dealt.0, dealt.1, full_deck()));
        func(dealt)
    }
}

/// The 81 cards in canonical order.
pub fn make_unshuffled_deck() -> (deck: Vec<Card>)
    ensures
        deck@ == full_deck(),
{
    make_deck()
}

} // verus!
