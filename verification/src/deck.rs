//! The classic deck: every card once, in canonical order or shuffled.

use crate::cards::{Card, Colour, Number, Shading, Shape};
use rand::seq::SliceRandom;
use vstd::prelude::*;

verus! {

/// The 81 cards in canonical order: the number varies slowest, then the
/// shape, then the shading, and the colour fastest.
pub open spec fn full_deck() -> Seq<Card> {
    Seq::new(81, |i: int| Card::at(i))
}

/// `deck` holds the cards of the full deck, in some order.
pub open spec fn is_shuffled_deck(deck: Seq<Card>) -> bool {
    deck.to_multiset() == full_deck().to_multiset()
}

/// The full deck has 81 cards, no card twice, and every card there is.
pub proof fn full_deck_has_every_card_once()
    ensures
        full_deck().len() == 81,
        full_deck().no_duplicates(),
        forall|card: Card| full_deck().contains(card),
{
    assert forall|i: int, j: int| 0 <= i < 81 && 0 <= j < 81 && i != j implies full_deck()[i]
        != full_deck()[j] by {
        crate::cards::index_and_at_are_inverse(Card::at(i), i);
        crate::cards::index_and_at_are_inverse(Card::at(j), j);
    }
    assert forall|card: Card| full_deck().contains(card) by {
        crate::cards::index_and_at_are_inverse(card, 0);
        assert(full_deck()[card.index()] == card);
    }
}

/// A shuffled deck has 81 cards, no card twice, and every card there is.
pub proof fn shuffled_deck_has_every_card_once(deck: Seq<Card>)
    requires
        is_shuffled_deck(deck),
    ensures
        deck.len() == 81,
        deck.no_duplicates(),
        forall|card: Card| deck.contains(card),
{
    broadcast use vstd::seq_lib::group_to_multiset_ensures;

    full_deck_has_every_card_once();
    full_deck().lemma_multiset_has_no_duplicates();
    deck.lemma_multiset_has_no_duplicates_conv();
    assert(deck.len() == deck.to_multiset().len());
    assert(full_deck().len() == full_deck().to_multiset().len());
    assert forall|card: Card| deck.contains(card) by {
        assert(full_deck().contains(card));
        assert(full_deck().to_multiset().count(card) > 0);
    }
}

pub fn make_deck() -> (deck: Vec<Card>)
    ensures
        deck@ == full_deck(),
{
    let numbers: [Number; 3] = [Number::One, Number::Two, Number::Three];
    let shapes: [Shape; 3] = [Shape::Oval, Shape::Wave, Shape::Diamond];
    let shadings: [Shading; 3] = [Shading::Empty, Shading::Half, Shading::Full];
    let colours: [Colour; 3] = [Colour::Red, Colour::Green, Colour::Purple];
    let mut deck: Vec<Card> = Vec::with_capacity(81);
    let mut n: usize = 0;
    while n < 3
        invariant
            n <= 3,
            numbers@ == seq![Number::One, Number::Two, Number::Three],
            shapes@ == seq![Shape::Oval, Shape::Wave, Shape::Diamond],
            shadings@ == seq![Shading::Empty, Shading::Half, Shading::Full],
            colours@ == seq![Colour::Red, Colour::Green, Colour::Purple],
            deck@.len() == 27 * n,
            forall|i: int| 0 <= i < deck@.len() ==> deck@[i] == Card::at(i),
        decreases 3 - n,
    {
        let mut s: usize = 0;
        while s < 3
            invariant
                n < 3,
                s <= 3,
                numbers@ == seq![Number::One, Number::Two, Number::Three],
                shapes@ == seq![Shape::Oval, Shape::Wave, Shape::Diamond],
                shadings@ == seq![Shading::Empty, Shading::Half, Shading::Full],
                colours@ == seq![Colour::Red, Colour::Green, Colour::Purple],
                deck@.len() == 27 * n + 9 * s,
                forall|i: int| 0 <= i < deck@.len() ==> deck@[i] == Card::at(i),
            decreases 3 - s,
        {
            let mut h: usize = 0;
            while h < 3
                invariant
                    n < 3,
                    s < 3,
                    h <= 3,
                    numbers@ == seq![Number::One, Number::Two, Number::Three],
                    shapes@ == seq![Shape::Oval, Shape::Wave, Shape::Diamond],
                    shadings@ == seq![Shading::Empty, Shading::Half, Shading::Full],
                    colours@ == seq![Colour::Red, Colour::Green, Colour::Purple],
                    deck@.len() == 27 * n + 9 * s + 3 * h,
                    forall|i: int| 0 <= i < deck@.len() ==> deck@[i] == Card::at(i),
                decreases 3 - h,
            {
                let mut c: usize = 0;
                while c < 3
                    invariant
                        n < 3,
                        s < 3,
                        h < 3,
                        c <= 3,
                        numbers@ == seq![Number::One, Number::Two, Number::Three],
                        shapes@ == seq![Shape::Oval, Shape::Wave, Shape::Diamond],
                        shadings@ == seq![Shading::Empty, Shading::Half, Shading::Full],
                        colours@ == seq![Colour::Red, Colour::Green, Colour::Purple],
                        deck@.len() == 27 * n + 9 * s + 3 * h + c,
                        forall|i: int| 0 <= i < deck@.len() ==> deck@[i] == Card::at(i),
                    decreases 3 - c,
                {
                    let card = Card::new(numbers[n], shapes[s], shadings[h], colours[c]);
                    proof {
                        let i = 27 * n + 9 * s + 3 * h + c;
                        assert(card.index() == i);
                        crate::cards::index_and_at_are_inverse(card, i);
                    }
                    deck.push(card);
                    c += 1;
                }
                h += 1;
            }
            s += 1;
        }
        n += 1;
    }
    assert(deck@ =~= full_deck());
    deck
}

/// Brings the items of `items` into a random order, in place, with
/// `rand::seq::SliceRandom::shuffle` driven by `rand::thread_rng`. The
/// shuffle only swaps items of the slice, so the contract claims that the
/// items afterwards are the items before, each as often as before; it claims
/// nothing of their order. `thread_rng` panics where the operating system
/// provides no entropy to seed it.
#[verifier::external_body]
pub(crate) fn shuffle<T>(items: &mut Vec<T>)
    ensures
        final(items)@.to_multiset() == old(items)@.to_multiset(),
{
    items.shuffle(&mut rand::thread_rng());
}

/// A full deck in random order.
pub fn make_shuffled_deck() -> (deck: Vec<Card>)
    ensures
        is_shuffled_deck(deck@),
        deck@.len() == 81,
        deck@.no_duplicates(),
        forall|card: Card| deck@.contains(card),
{
    let mut deck = make_deck();
    shuffle(&mut deck);
    proof {
        shuffled_deck_has_every_card_once(deck@);
    }
    deck
}

} // verus!
