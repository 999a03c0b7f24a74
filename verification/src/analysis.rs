//! How many cards of a shuffled deck can be laid out, one after the other,
//! before a set is forced: a card is laid out unless it completes a set with
//! two cards that lie there already.

use crate::cards::{completing_card, forms_set, third_card, Card};
use crate::deck::{is_shuffled_deck, make_shuffled_deck};
use vstd::prelude::*;

verus! {

/// The number of values that the count of one deal can take: 0 to 81.
pub const OUTCOMES: usize = 82;

/// `card` would complete a set with two of the cards laid out: one of them
/// is the card that completes a set with `card` and another of them.
pub open spec fn completes_a_pair(laid_out: Seq<Card>, card: Card) -> bool {
    exists|i: int, j: int|
        #![trigger laid_out[i], laid_out[j]]
        0 <= i < laid_out.len() && 0 <= j < laid_out.len() && laid_out[j] == completing_card(
            card,
            laid_out[i],
        )
}

/// The cards of `deck` that are laid out, taking the deck from its first
/// card on.
pub open spec fn laid_out(deck: Seq<Card>) -> Seq<Card>
    decreases deck.len(),
{
    if deck.len() == 0 {
        Seq::empty()
    } else {
        let before = laid_out(deck.drop_last());
        if completes_a_pair(before, deck.last()) {
            before
        } else {
            before.push(deck.last())
        }
    }
}

/// No three of the cards laid out form a set, and no more cards are laid out
/// than the deck holds.
pub proof fn laid_out_holds_no_set(deck: Seq<Card>)
    ensures
        laid_out(deck).len() <= deck.len(),
        forall|i: int, j: int, k: int|
            0 <= i < j < k < laid_out(deck).len() ==> !forms_set(
                #[trigger] laid_out(deck)[i],
                #[trigger] laid_out(deck)[j],
                #[trigger] laid_out(deck)[k],
            ),
    decreases deck.len(),
{
    if deck.len() > 0 {
        laid_out_holds_no_set(deck.drop_last());
        let before = laid_out(deck.drop_last());
        let card = deck.last();
        let now = laid_out(deck);
        if !completes_a_pair(before, card) {
            assert forall|i: int, j: int, k: int| 0 <= i < j < k < now.len() implies !forms_set(
                #[trigger] now[i],
                #[trigger] now[j],
                #[trigger] now[k],
            ) by {
                if k == before.len() {
                    if forms_set(now[i], now[j], now[k]) {
                        crate::cards::forms_set_in_any_order(before[i], before[j], card);
                        crate::cards::completing_card_is_the_only_third(card, before[i], before[j]);
                        assert(before[j] == completing_card(card, before[i]));
                        assert(completes_a_pair(before, card));
                    }
                } else {
                    assert(now[i] == before[i] && now[j] == before[j] && now[k] == before[k]);
                }
            }
        }
    }
}

/// The table of the cards laid out: for each place of the canonical order,
/// whether the card there is laid out.
spec fn marks(laid_out: Seq<Card>, present: Seq<bool>) -> bool {
    &&& present.len() == 81
    &&& forall|k: int| 0 <= k < 81 ==> (#[trigger] present[k] <==> laid_out.contains(Card::at(k)))
}

/// Whether `card` would complete a set with two of the cards laid out.
fn would_complete(laid_out: &Vec<Card>, present: &Vec<bool>, card: &Card) -> (bad: bool)
    requires
        marks(laid_out@, present@),
    ensures
        bad == completes_a_pair(laid_out@, *card),
{
    let n: usize = laid_out.len();
    let mut i: usize = 0;
    while i < n
        invariant
            n == laid_out@.len(),
            i <= n,
            marks(laid_out@, present@),
            forall|a: int, b: int|
                #![trigger laid_out@[a], laid_out@[b]]
                0 <= a < i && 0 <= b < n ==> laid_out@[b] != completing_card(
                    *card,
                    laid_out@[a],
                ),
        decreases n - i,
    {
        let third = third_card(card, &laid_out[i]);
        let place = third.to_int() as usize;
        if present[place] {
            proof {
                assert(laid_out@.contains(Card::at(place as int)));
                let j = choose|j: int| 0 <= j < laid_out@.len() && laid_out@[j] == third;
                assert(laid_out@[j] == completing_card(*card, laid_out@[i as int]));
            }
            return true;
        }
        proof {
            assert forall|b: int| 0 <= b < n implies laid_out@[b] != completing_card(
                *card,
                laid_out@[i as int],
            ) by {
                if laid_out@[b] == third {
                    assert(laid_out@.contains(third));
                    assert(present@[place as int]);
                }
            }
        }
        i += 1;
    }
    false
}

/// The number of cards of `deck` that are laid out.
pub fn most_cards_with_no_set_among(deck: &[Card]) -> (count: usize)
    ensures
        count == laid_out(deck@).len(),
        count <= deck@.len(),
{
    let n: usize = deck.len();
    let mut cards: Vec<Card> = Vec::new();
    let mut present: Vec<bool> = Vec::new();
    let mut k: usize = 0;
    while k < 81
        invariant
            k <= 81,
            present@.len() == k,
            forall|j: int| 0 <= j < k ==> !#[trigger] present@[j],
        decreases 81 - k,
    {
        present.push(false);
        k += 1;
    }
    let mut i: usize = 0;
    assert(deck@.take(0) =~= Seq::<Card>::empty());
    while i < n
        invariant
            n == deck@.len(),
            i <= n,
            marks(cards@, present@),
            cards@ == laid_out(deck@.take(i as int)),
        decreases n - i,
    {
        let card = deck[i];
        proof {
            assert(deck@.take(i + 1).drop_last() =~= deck@.take(i as int));
            assert(deck@.take(i + 1).last() == card);
        }
        if !would_complete(&cards, &present, &card) {
            let ghost before = cards@;
            let ghost table = present@;
            let place = card.to_int() as usize;
            cards.push(card);
            present.set(place, true);
            proof {
                assert forall|k: int| 0 <= k < 81 implies (#[trigger] present@[k]
                    <==> cards@.contains(Card::at(k))) by {
                    crate::cards::index_and_at_are_inverse(card, k);
                    if k == place {
                        assert(cards@[before.len() as int] == Card::at(k));
                    } else {
                        if before.contains(Card::at(k)) {
                            let j = choose|j: int| 0 <= j < before.len() && before[j] == Card::at(k);
                            assert(cards@[j] == Card::at(k));
                        }
                        if cards@.contains(Card::at(k)) {
                            let j = choose|j: int| 0 <= j < cards@.len() && cards@[j] == Card::at(k);
                            assert(j < before.len());
                            assert(before[j] == Card::at(k));
                        }
                    }
                }
            }
        }
        i += 1;
    }
    proof {
        assert(deck@.take(n as int) =~= deck@);
        laid_out_holds_no_set(deck@);
    }
    cards.len()
}

/// `count` cards are laid out of some full deck, in whatever order it is.
pub open spec fn is_outcome(count: int) -> bool {
    exists|deck: Seq<Card>| is_shuffled_deck(deck) && count == #[trigger] laid_out(deck).len()
}

/// The number of cards of a freshly shuffled deck that are laid out.
pub fn most_cards_with_no_set() -> (count: usize)
    ensures
        is_outcome(count as int),
        count < OUTCOMES,
{
    let deck = make_shuffled_deck();
    let count = most_cards_with_no_set_among(deck.as_slice());
    assert(count == laid_out(deck@).len());
    count
}

/// The number of cards of a freshly shuffled deck that are laid out.
pub fn most_cards_with_no_set_fast() -> (count: usize)
    ensures
        is_outcome(count as int),
        count < OUTCOMES,
{
    most_cards_with_no_set()
}

/// The sum of the counts.
pub open spec fn total(counts: Seq<usize>) -> nat
    decreases counts.len(),
{
    if counts.len() == 0 {
        0
    } else {
        total(counts.drop_last()) + counts.last() as nat
    }
}

/// No count is above the sum of all, and raising one count by one raises the
/// sum by one.
pub proof fn total_grows_with_each_count(counts: Seq<usize>, at: int)
    requires
        0 <= at < counts.len(),
        counts[at] < usize::MAX,
    ensures
        counts[at] <= total(counts),
        total(counts.update(at, (counts[at] + 1) as usize)) == total(counts) + 1,
    decreases counts.len(),
{
    let raised = counts.update(at, (counts[at] + 1) as usize);
    if at == counts.len() - 1 {
        assert(raised.drop_last() =~= counts.drop_last());
    } else {
        total_grows_with_each_count(counts.drop_last(), at);
        assert(raised.drop_last() =~= counts.drop_last().update(
            at,
            (counts[at] + 1) as usize,
        ));
    }
}

/// A histogram with no observation yet: a count of 0 for each outcome.
pub fn empty_histogram() -> (histogram: Vec<usize>)
    ensures
        histogram@.len() == OUTCOMES,
        forall|k: int| 0 <= k < OUTCOMES ==> histogram@[k] == 0,
        total(histogram@) == 0,
{
    let mut histogram: Vec<usize> = Vec::new();
    let mut k: usize = 0;
    while k < OUTCOMES
        invariant
            k <= OUTCOMES,
            histogram@.len() == k,
            forall|j: int| 0 <= j < k ==> histogram@[j] == 0,
            total(histogram@) == 0,
        decreases OUTCOMES - k,
    {
        let ghost before = histogram@;
        histogram.push(0);
        assert(histogram@.drop_last() =~= before);
        k += 1;
    }
    histogram
}

/// Counts one more observation of `value`.
pub fn tally(histogram: &mut Vec<usize>, value: usize)
    requires
        value < old(histogram)@.len(),
        total(old(histogram)@) < usize::MAX,
    ensures
        final(histogram)@ == old(histogram)@.update(
            value as int,
            (old(histogram)@[value as int] + 1) as usize,
        ),
        final(histogram)@[value as int] == old(histogram)@[value as int] + 1,
        total(final(histogram)@) == total(old(histogram)@) + 1,
{
    proof {
        if histogram@[value as int] == usize::MAX {
            lemma_count_within_total(histogram@, value as int);
        } else {
            total_grows_with_each_count(histogram@, value as int);
        }
    }
    let count = histogram[value];
    histogram.set(value, count + 1);
}

proof fn lemma_count_within_total(counts: Seq<usize>, at: int)
    requires
        0 <= at < counts.len(),
    ensures
        counts[at] <= total(counts),
    decreases counts.len(),
{
    if at < counts.len() - 1 {
        lemma_count_within_total(counts.drop_last(), at);
    }
}

/// Deals `count` shuffled decks and counts, for each number from 0 to 81, the
/// deals in which that many cards were laid out.
pub fn num_cards_to_forced_set(count: usize) -> (histogram: Vec<usize>)
    ensures
        histogram@.len() == OUTCOMES,
        total(histogram@) == count,
        forall|k: int| 0 <= k < OUTCOMES && #[trigger] histogram@[k] > 0 ==> is_outcome(k),
{
    let mut histogram = empty_histogram();
    let mut done: usize = 0;
    while done < count
        invariant
            done <= count,
            histogram@.len() == OUTCOMES,
            total(histogram@) == done,
            forall|k: int| 0 <= k < OUTCOMES && #[trigger] histogram@[k] > 0 ==> is_outcome(k),
        decreases count - done,
    {
        let value = most_cards_with_no_set();
        tally(&mut histogram, value);
        done += 1;
    }
    histogram
}

/// The number of deals that falls to worker `worker` of `workers`, where
/// `count` deals are shared out as evenly as can be: the first workers take
/// one deal more where the deals do not go round.
pub open spec fn share(count: nat, workers: nat, worker: nat) -> nat {
    count / workers + if worker < count % workers {
        1nat
    } else {
        0nat
    }
}

/// The deals of the first `upto` workers together.
pub open spec fn shares(count: nat, workers: nat, upto: nat) -> nat
    decreases upto,
{
    if upto == 0 {
        0
    } else {
        shares(count, workers, (upto - 1) as nat) + share(count, workers, (upto - 1) as nat)
    }
}

/// The shares of all workers together are all the deals: none is left out
/// and none is made twice.
pub proof fn shares_make_the_count(count: nat, workers: nat)
    requires
        workers > 0,
    ensures
        shares(count, workers, workers) == count,
{
    lemma_shares(count, workers, workers);
    let q = count / workers;
    let r = count % workers;
    assert(count == workers * q + r) by (nonlinear_arith)
        requires
            workers > 0,
            q == count / workers,
            r == count % workers,
    ;
}

proof fn lemma_shares(count: nat, workers: nat, upto: nat)
    requires
        workers > 0,
        upto <= workers,
    ensures
        shares(count, workers, upto) == upto * (count / workers) + if upto < count % workers {
            upto
        } else {
            count % workers
        },
    decreases upto,
{
    let q = count / workers;
    if upto > 0 {
        let before = (upto - 1) as nat;
        lemma_shares(count, workers, before);
        assert(upto * q == before * q + q) by (nonlinear_arith)
            requires
                upto == before + 1,
        ;
    } else {
        assert(upto * q == 0) by (nonlinear_arith)
            requires
                upto == 0,
        ;
    }
}

/// The number of deals that falls to worker `worker` of `workers`.
pub fn trials_for_worker(count: usize, workers: usize, worker: usize) -> (deals: usize)
    requires
        workers > 0,
    ensures
        deals == share(count as nat, workers as nat, worker as nat),
{
    let base = count / workers;
    if worker < count % workers {
        assert(base < count) by (nonlinear_arith)
            requires
                workers > 0,
                base == count / workers,
                count % workers > 0,
        ;
        base + 1
    } else {
        base
    }
}

} // verus!
