//! Taking the three cards of a move out of the play area: in order, with a
//! replacement from the deck, or with as few cards moved as can be.

use crate::cards::Card;
use crate::search::{sorted_move, Move};
use vstd::prelude::*;

verus! {

/// `cards` without the cards at the three positions of `m`, the others in
/// their order.
pub open spec fn without(cards: Seq<Card>, m: Move) -> Seq<Card> {
    cards.remove(m.highest() as int).remove(m.middle() as int).remove(m.lowest() as int)
}

/// `cards` with the card at each position of `m` replaced by one of the last
/// three cards of `deck`: the last goes to the position that `m` names first.
pub open spec fn replaced(cards: Seq<Card>, deck: Seq<Card>, m: Move) -> Seq<Card> {
    let d = deck.len();
    cards.update(m.0 as int, deck[d - 1]).update(m.1 as int, deck[d - 2]).update(
        m.2 as int,
        deck[d - 3],
    )
}

/// The card at position `i`, unless `m` names the position.
pub open spec fn kept(cards: Seq<Card>, m: Move, i: int) -> Seq<Card> {
    if m.names(i) {
        Seq::empty()
    } else {
        seq![cards[i]]
    }
}

/// Of the last three cards, those that `m` does not name, in their order.
pub open spec fn tail_survivors(cards: Seq<Card>, m: Move) -> Seq<Card> {
    let b = cards.len() - 3;
    kept(cards, m, b) + kept(cards, m, b + 1) + kept(cards, m, b + 2)
}

/// 1 if position `c` lies below the boundary `b`, else 0.
pub open spec fn below(c: usize, b: int) -> int {
    if c < b {
        1int
    } else {
        0int
    }
}

/// `cards` without the cards at the three positions of `m`, with as few cards
/// moved as can be: the play area loses its last three positions; a card
/// below them that `m` does not name stays where it is; the positions below
/// them that `m` names take the surviving cards of the last three, the last
/// survivor going to the position that `m` names first.
pub open spec fn shrunk(cards: Seq<Card>, m: Move) -> Seq<Card> {
    let b = cards.len() - 3;
    let fill = tail_survivors(cards, m);
    Seq::new(
        b as nat,
        |i: int|
            if i == m.0 {
                fill[fill.len() - 1]
            } else if i == m.1 {
                fill[fill.len() - 1 - below(m.0, b)]
            } else if i == m.2 {
                fill[fill.len() - 1 - below(m.0, b) - below(m.1, b)]
            } else {
                cards[i]
            },
    )
}

/// Takes the three cards of the move out of play, the one at the highest
/// position first, so that the positions still to be served stay as they are.
pub(crate) fn take_away(in_play: &mut Vec<Card>, mve: &Move)
    requires
        mve.fits(old(in_play)@.len() as int),
    ensures
        final(in_play)@ == without(old(in_play)@, *mve),
        final(in_play)@.len() == old(in_play)@.len() - 3,
{
    let sorted = sorted_move(mve);
    in_play.remove(sorted[2]);
    in_play.remove(sorted[1]);
    in_play.remove(sorted[0]);
}

/// Gives the place of each card of the move to a card from the top of the
/// deck, in the order in which the move names the positions.
pub(crate) fn replace(deck: &mut Vec<Card>, in_play: &mut Vec<Card>, mve: &Move)
    requires
        mve.fits(old(in_play)@.len() as int),
        old(deck)@.len() >= 3,
    ensures
        final(deck)@ == old(deck)@.take(old(deck)@.len() - 3),
        final(in_play)@ == replaced(old(in_play)@, old(deck)@, *mve),
{
    let first = deck.pop().unwrap();
    in_play.set(mve.0, first);
    let second = deck.pop().unwrap();
    in_play.set(mve.1, second);
    let third = deck.pop().unwrap();
    in_play.set(mve.2, third);
    assert(deck@ =~= old(deck)@.take(old(deck)@.len() - 3));
}

/// The play area after position `at` was served: the card there leaves if
/// the move names it.
pub open spec fn dropped(cards: Seq<Card>, m: Move, at: int) -> Seq<Card> {
    cards.take(at) + kept(cards, m, at) + cards.skip(at + 1)
}

/// The play area after position `at` was filled: where it lies below
/// `new_max`, the last card takes its place.
pub open spec fn filled(cards: Seq<Card>, at: usize, new_max: int) -> Seq<Card> {
    if at < new_max {
        cards.drop_last().update(at as int, cards.last())
    } else {
        cards
    }
}

/// Takes the card at position `at` out of play if the move names it.
fn drop_if_named(in_play: &mut Vec<Card>, mve: &Move, at: usize)
    requires
        at < old(in_play)@.len(),
    ensures
        final(in_play)@ == dropped(old(in_play)@, *mve, at as int),
{
    if mve.0 == at || mve.1 == at || mve.2 == at {
        in_play.remove(at);
    }
    assert(in_play@ =~= dropped(old(in_play)@, *mve, at as int));
}

/// Puts the last card in play at position `at` if that lies below `new_max`.
fn fill_below(in_play: &mut Vec<Card>, at: usize, new_max: usize)
    requires
        at < new_max ==> new_max < old(in_play)@.len(),
    ensures
        final(in_play)@ == filled(old(in_play)@, at, new_max as int),
{
    if at < new_max {
        let card = in_play.pop().unwrap();
        in_play.set(at, card);
    }
}

/// The play area while `shrink` works: after the last three positions were
/// served, and after each position of the move was.
spec fn shrinking(cards: Seq<Card>, m: Move, step: int) -> Seq<Card> {
    let n = cards.len() as int;
    let d3 = dropped(dropped(dropped(cards, m, n - 1), m, n - 2), m, n - 3);
    if step == 0 {
        d3
    } else if step == 1 {
        filled(d3, m.0, n - 3)
    } else if step == 2 {
        filled(filled(d3, m.0, n - 3), m.1, n - 3)
    } else {
        filled(filled(filled(d3, m.0, n - 3), m.1, n - 3), m.2, n - 3)
    }
}

/// Serving the last three positions, the last first, leaves the cards below
/// them and the survivors of the three.
proof fn lemma_dropped_leaves_survivors(cards: Seq<Card>, m: Move)
    requires
        cards.len() >= 3,
    ensures
        shrinking(cards, m, 0) == cards.take(cards.len() - 3) + tail_survivors(cards, m),
{
    let n = cards.len() as int;
    let s1 = dropped(cards, m, n - 1);
    assert(s1 =~= cards.take(n - 1) + kept(cards, m, n - 1));
    let s2 = dropped(s1, m, n - 2);
    assert(s2 =~= cards.take(n - 2) + kept(cards, m, n - 2) + kept(cards, m, n - 1));
    let s3 = dropped(s2, m, n - 3);
    assert(s3 =~= cards.take(n - 3) + tail_survivors(cards, m));
}

/// As many of the last three cards survive as the move names positions below
/// them.
proof fn lemma_survivors_match_holes(cards: Seq<Card>, m: Move)
    requires
        m.fits(cards.len() as int),
    ensures
        tail_survivors(cards, m).len() == below(m.0, cards.len() - 3) + below(
            m.1,
            cards.len() - 3,
        ) + below(m.2, cards.len() - 3),
{
    let b = cards.len() - 3;
    let named = |i: int|
        if m.names(i) {
            1int
        } else {
            0int
        };
    assert(kept(cards, m, b).len() == 1 - named(b));
    assert(kept(cards, m, b + 1).len() == 1 - named(b + 1));
    assert(kept(cards, m, b + 2).len() == 1 - named(b + 2));
    assert(named(b) + named(b + 1) + named(b + 2) == 3 - below(m.0, b) - below(m.1, b) - below(
        m.2,
        b,
    ));
}

/// Filling the positions of the move one after the other, from the cards
/// below the last three and the survivors of these, gives `shrunk`; each
/// step finds the card that it moves.
proof fn lemma_filled_is_shrunk(cards: Seq<Card>, m: Move)
    requires
        m.fits(cards.len() as int),
    ensures
        ({
            let b = cards.len() - 3;
            let s0 = cards.take(b) + tail_survivors(cards, m);
            let s1 = filled(s0, m.0, b);
            let s2 = filled(s1, m.1, b);
            &&& m.0 < b ==> b < s0.len()
            &&& m.1 < b ==> b < s1.len()
            &&& m.2 < b ==> b < s2.len()
            &&& filled(s2, m.2, b) == shrunk(cards, m)
            &&& shrunk(cards, m).len() == b
        }),
{
    let b = cards.len() - 3;
    let fill = tail_survivors(cards, m);
    let s0 = cards.take(b) + fill;
    let s1 = filled(s0, m.0, b);
    let s2 = filled(s1, m.1, b);
    let s3 = filled(s2, m.2, b);
    lemma_survivors_match_holes(cards, m);
    assert(s0.len() == b + fill.len());
    assert(s1.len() == s0.len() - below(m.0, b));
    assert(s2.len() == s1.len() - below(m.1, b));
    assert(s3.len() == b);
    assert forall|i: int| 0 <= i < b implies s3[i] == shrunk(cards, m)[i] by {
        if i == m.0 {
            assert(s1[i] == fill[fill.len() - 1]);
        } else if i == m.1 {
            assert(s2[i] == s1.last());
            assert(s1.last() == fill[fill.len() - 1 - below(m.0, b)]);
        } else if i == m.2 {
            assert(s3[i] == s2.last());
            assert(s2.last() == fill[fill.len() - 1 - below(m.0, b) - below(m.1, b)]);
        } else {
            assert(s3[i] == s0[i]);
        }
    }
    assert(s3 =~= shrunk(cards, m));
}

/// What `shrink` goes by: each step finds the card that it moves, and the
/// last step leaves `shrunk`.
proof fn lemma_shrinking(cards: Seq<Card>, m: Move)
    requires
        m.fits(cards.len() as int),
    ensures
        ({
            let b = cards.len() - 3;
            &&& m.0 < b ==> b < shrinking(cards, m, 0).len()
            &&& m.1 < b ==> b < shrinking(cards, m, 1).len()
            &&& m.2 < b ==> b < shrinking(cards, m, 2).len()
            &&& shrinking(cards, m, 3) == shrunk(cards, m)
            &&& shrunk(cards, m).len() == b
        }),
{
    lemma_dropped_leaves_survivors(cards, m);
    lemma_filled_is_shrunk(cards, m);
}

/// How the play area shrinks, step by step: the last three positions are
/// served, the last first, then the positions of the move are filled in the
/// order in which the move names them. Each step finds the card of the move
/// where it was at the start, and the last step leaves `shrunk`.
pub proof fn shrinking_step_by_step(cards: Seq<Card>, m: Move)
    requires
        m.fits(cards.len() as int),
    ensures
        ({
            let n = cards.len() as int;
            let b = n - 3;
            let d1 = dropped(cards, m, n - 1);
            let d2 = dropped(d1, m, n - 2);
            let d3 = dropped(d2, m, b);
            let f1 = filled(d3, m.0, b);
            let f2 = filled(f1, m.1, b);
            let f3 = filled(f2, m.2, b);
            &&& n - 2 < d1.len() && d1[n - 2] == cards[n - 2]
            &&& b < d2.len() && d2[b] == cards[b]
            &&& m.0 < b ==> b < d3.len() && d3[m.0 as int] == cards[m.0 as int]
            &&& m.1 < b ==> b < f1.len() && f1[m.1 as int] == cards[m.1 as int]
            &&& m.2 < b ==> b < f2.len() && f2[m.2 as int] == cards[m.2 as int]
            &&& f3 == shrunk(cards, m)
        }),
{
    let n = cards.len() as int;
    let b = n - 3;
    let d1 = dropped(cards, m, n - 1);
    let d2 = dropped(d1, m, n - 2);
    let d3 = dropped(d2, m, b);
    assert(d1 =~= cards.take(n - 1) + kept(cards, m, n - 1));
    assert(d2 =~= cards.take(n - 2) + kept(cards, m, n - 2) + kept(cards, m, n - 1));
    lemma_dropped_leaves_survivors(cards, m);
    lemma_filled_is_shrunk(cards, m);
    let s0 = cards.take(b) + tail_survivors(cards, m);
    assert(d3 == s0);
    let f1 = filled(d3, m.0, b);
    let f2 = filled(f1, m.1, b);
}

/// Takes the three cards of the move out of play and moves as few of the
/// others as can be.
pub(crate) fn shrink(in_play: &mut Vec<Card>, mve: &Move)
    requires
        mve.fits(old(in_play)@.len() as int),
    ensures
        final(in_play)@ == shrunk(old(in_play)@, *mve),
        final(in_play)@.len() == old(in_play)@.len() - 3,
{
    let ghost cards = in_play@;
    let n: usize = in_play.len();
    let new_max: usize = n - 3;
    proof {
        lemma_shrinking(cards, *mve);
    }
    // The cards of the set among the last three leave, the last first.
    drop_if_named(in_play, mve, n - 1);
    drop_if_named(in_play, mve, n - 2);
    drop_if_named(in_play, mve, new_max);
    assert(in_play@ == shrinking(cards, *mve, 0));
    // The cards of the set further down give their places to what is left of
    // the last three.
    fill_below(in_play, mve.0, new_max);
    assert(in_play@ == shrinking(cards, *mve, 1));
    fill_below(in_play, mve.1, new_max);
    assert(in_play@ == shrinking(cards, *mve, 2));
    fill_below(in_play, mve.2, new_max);
    assert(in_play@ == shrinking(cards, *mve, 3));
}

/// 1 if `card` is `x`, else 0.
pub open spec fn hit(card: Card, x: Card) -> int {
    if card == x {
        1int
    } else {
        0int
    }
}

/// How many of the cards at the three positions of `m` are `x`.
pub open spec fn hits(cards: Seq<Card>, m: Move, x: Card) -> int {
    hit(cards[m.0 as int], x) + hit(cards[m.1 as int], x) + hit(cards[m.2 as int], x)
}

proof fn lemma_remove_count(s: Seq<Card>, i: int, x: Card)
    requires
        0 <= i < s.len(),
    ensures
        s.remove(i).to_multiset().count(x) == s.to_multiset().count(x) - hit(s[i], x),
{
    broadcast use vstd::multiset::group_multiset_axioms;

    assert(s =~= s.remove(i).insert(i, s[i]));
    vstd::seq_lib::to_multiset_insert(s.remove(i), i, s[i]);
}

proof fn lemma_update_count(s: Seq<Card>, i: int, a: Card, x: Card)
    requires
        0 <= i < s.len(),
    ensures
        s.update(i, a).to_multiset().count(x) == s.to_multiset().count(x) - hit(s[i], x) + hit(
            a,
            x,
        ),
{
    broadcast use vstd::multiset::group_multiset_axioms;

    assert(s.update(i, a) =~= s.remove(i).insert(i, a));
    lemma_remove_count(s, i, x);
    vstd::seq_lib::to_multiset_insert(s.remove(i), i, a);
}

proof fn lemma_dropped_count(s: Seq<Card>, m: Move, at: int, x: Card)
    requires
        0 <= at < s.len(),
    ensures
        dropped(s, m, at).to_multiset().count(x) == s.to_multiset().count(x) - if m.names(at) {
            hit(s[at], x)
        } else {
            0
        },
{
    if m.names(at) {
        assert(dropped(s, m, at) =~= s.remove(at));
        lemma_remove_count(s, at, x);
    } else {
        assert(dropped(s, m, at) =~= s);
    }
}

proof fn lemma_filled_count(s: Seq<Card>, at: usize, new_max: int, x: Card)
    requires
        at < new_max ==> new_max < s.len(),
    ensures
        filled(s, at, new_max).to_multiset().count(x) == s.to_multiset().count(x) - if at
            < new_max {
            hit(s[at as int], x)
        } else {
            0
        },
{
    if at < new_max {
        let last = s.len() - 1;
        assert(s.drop_last() =~= s.remove(last));
        lemma_remove_count(s, last, x);
        lemma_update_count(s.drop_last(), at as int, s.last(), x);
    }
}

/// Taking the cards of a move away in order takes each of them once.
pub proof fn without_takes_the_cards_of_the_move(cards: Seq<Card>, m: Move, x: Card)
    requires
        m.fits(cards.len() as int),
    ensures
        without(cards, m).len() == cards.len() - 3,
        without(cards, m).to_multiset().count(x) == cards.to_multiset().count(x) - hits(
            cards,
            m,
            x,
        ),
{
    let hi = m.highest() as int;
    let mid = m.middle() as int;
    let lo = m.lowest() as int;
    let s1 = cards.remove(hi);
    let s2 = s1.remove(mid);
    assert(s1[mid] == cards[mid]);
    assert(s2[lo] == cards[lo]);
    lemma_remove_count(cards, hi, x);
    lemma_remove_count(s1, mid, x);
    lemma_remove_count(s2, lo, x);
    assert(hit(cards[hi], x) + hit(cards[mid], x) + hit(cards[lo], x) == hits(cards, m, x));
}

/// Replacing the cards of a move takes each of them once and brings in the
/// top three cards of the deck.
pub proof fn replaced_swaps_the_cards_of_the_move(
    cards: Seq<Card>,
    deck: Seq<Card>,
    m: Move,
    x: Card,
)
    requires
        m.fits(cards.len() as int),
        deck.len() >= 3,
    ensures
        replaced(cards, deck, m).len() == cards.len(),
        replaced(cards, deck, m).to_multiset().count(x) == cards.to_multiset().count(x) - hits(
            cards,
            m,
            x,
        ) + hit(deck[deck.len() - 1], x) + hit(deck[deck.len() - 2], x) + hit(
            deck[deck.len() - 3],
            x,
        ),
{
    let d = deck.len() as int;
    let first = cards.update(m.0 as int, deck[d - 1]);
    let second = first.update(m.1 as int, deck[d - 2]);
    lemma_update_count(cards, m.0 as int, deck[d - 1], x);
    lemma_update_count(first, m.1 as int, deck[d - 2], x);
    lemma_update_count(second, m.2 as int, deck[d - 3], x);
}

/// `hit` of the card at position `c`, where `c` is one of the last three
/// positions; else 0.
spec fn high_hit(cards: Seq<Card>, c: usize, x: Card) -> int {
    if c >= cards.len() - 3 {
        hit(cards[c as int], x)
    } else {
        0
    }
}

/// `hit` of the card at position `c`, where `c` lies below the last three
/// positions; else 0.
spec fn low_hit(cards: Seq<Card>, c: usize, x: Card) -> int {
    if c < cards.len() - 3 {
        hit(cards[c as int], x)
    } else {
        0
    }
}

/// `hit` of the card at position `p`, where the move names `p`; else 0.
spec fn named_hit(cards: Seq<Card>, m: Move, p: int, x: Card) -> int {
    if m.names(p) {
        hit(cards[p], x)
    } else {
        0
    }
}

/// Of the cards at the last three positions, as many are `x` and named by
/// the move as the move names positions there whose card is `x`.
proof fn lemma_tail_hits(cards: Seq<Card>, m: Move, x: Card)
    requires
        m.fits(cards.len() as int),
    ensures
        ({
            let b = cards.len() - 3;
            named_hit(cards, m, b, x) + named_hit(cards, m, b + 1, x) + named_hit(
                cards,
                m,
                b + 2,
                x,
            ) == high_hit(cards, m.0, x) + high_hit(cards, m.1, x) + high_hit(cards, m.2, x)
        }),
{
    let b = cards.len() - 3;
    let at = |c: usize, p: int|
        if c == p {
            hit(cards[c as int], x)
        } else {
            0
        };
    assert(named_hit(cards, m, b, x) == at(m.0, b) + at(m.1, b) + at(m.2, b));
    assert(named_hit(cards, m, b + 1, x) == at(m.0, b + 1) + at(m.1, b + 1) + at(m.2, b + 1));
    assert(named_hit(cards, m, b + 2, x) == at(m.0, b + 2) + at(m.1, b + 2) + at(m.2, b + 2));
    assert(high_hit(cards, m.0, x) == at(m.0, b) + at(m.0, b + 1) + at(m.0, b + 2));
    assert(high_hit(cards, m.1, x) == at(m.1, b) + at(m.1, b + 1) + at(m.1, b + 2));
    assert(high_hit(cards, m.2, x) == at(m.2, b) + at(m.2, b + 1) + at(m.2, b + 2));
}

/// Serving the last three positions takes each card of the move there once.
proof fn lemma_drops_count(cards: Seq<Card>, m: Move, x: Card)
    requires
        m.fits(cards.len() as int),
    ensures
        shrinking(cards, m, 0).to_multiset().count(x) == cards.to_multiset().count(x) - high_hit(
            cards,
            m.0,
            x,
        ) - high_hit(cards, m.1, x) - high_hit(cards, m.2, x),
{
    let n = cards.len() as int;
    let d1 = dropped(cards, m, n - 1);
    let d2 = dropped(d1, m, n - 2);
    let d3 = dropped(d2, m, n - 3);
    lemma_dropped_count(cards, m, n - 1, x);
    assert(d1 =~= cards.take(n - 1) + kept(cards, m, n - 1));
    assert(d1[n - 2] == cards[n - 2]);
    lemma_dropped_count(d1, m, n - 2, x);
    assert(d2 =~= cards.take(n - 2) + kept(cards, m, n - 2) + kept(cards, m, n - 1));
    assert(d2[n - 3] == cards[n - 3]);
    lemma_dropped_count(d2, m, n - 3, x);
    assert(d3.to_multiset().count(x) == cards.to_multiset().count(x) - named_hit(
        cards,
        m,
        n - 1,
        x,
    ) - named_hit(cards, m, n - 2, x) - named_hit(cards, m, n - 3, x));
    lemma_tail_hits(cards, m, x);
}

/// Filling the positions of the move below the last three takes each card
/// of the move there once.
proof fn lemma_fills_count(cards: Seq<Card>, m: Move, x: Card)
    requires
        m.fits(cards.len() as int),
    ensures
        shrinking(cards, m, 3).to_multiset().count(x) == shrinking(
            cards,
            m,
            0,
        ).to_multiset().count(x) - low_hit(cards, m.0, x) - low_hit(cards, m.1, x) - low_hit(
            cards,
            m.2,
            x,
        ),
{
    let b = cards.len() - 3;
    lemma_dropped_leaves_survivors(cards, m);
    lemma_filled_is_shrunk(cards, m);
    let s0 = cards.take(b) + tail_survivors(cards, m);
    let s1 = filled(s0, m.0, b);
    let s2 = filled(s1, m.1, b);
    let s3 = filled(s2, m.2, b);
    assert(shrinking(cards, m, 0) == s0);
    assert(shrinking(cards, m, 3) == s3);
    lemma_filled_count(s0, m.0, b, x);
    lemma_filled_count(s1, m.1, b, x);
    lemma_filled_count(s2, m.2, b, x);
    assert(m.0 < b ==> s0[m.0 as int] == cards[m.0 as int]);
    assert(m.1 < b ==> s1[m.1 as int] == cards[m.1 as int]);
    assert(m.2 < b ==> s2[m.2 as int] == cards[m.2 as int]);
}

/// Shrinking takes each card of the move once.
pub proof fn shrunk_takes_the_cards_of_the_move(cards: Seq<Card>, m: Move, x: Card)
    requires
        m.fits(cards.len() as int),
    ensures
        shrunk(cards, m).len() == cards.len() - 3,
        shrunk(cards, m).to_multiset().count(x) == cards.to_multiset().count(x) - hits(
            cards,
            m,
            x,
        ),
{
    lemma_shrinking(cards, m);
    lemma_drops_count(cards, m, x);
    lemma_fills_count(cards, m, x);
    assert(high_hit(cards, m.0, x) + low_hit(cards, m.0, x) == hit(cards[m.0 as int], x));
    assert(high_hit(cards, m.1, x) + low_hit(cards, m.1, x) == hit(cards[m.1 as int], x));
    assert(high_hit(cards, m.2, x) + low_hit(cards, m.2, x) == hit(cards[m.2 as int], x));
}

/// Shrinking takes the same cards out of play as taking them away in order
/// does; it leaves three positions fewer, and every card below the last three
/// positions that the move does not name where it was.
pub proof fn shrunk_moves_no_more_than_needed(cards: Seq<Card>, m: Move)
    requires
        m.fits(cards.len() as int),
    ensures
        shrunk(cards, m).len() == cards.len() - 3,
        forall|i: int|
            0 <= i < cards.len() - 3 && !m.names(i) ==> #[trigger] shrunk(cards, m)[i] == cards[i],
        shrunk(cards, m).to_multiset() == without(cards, m).to_multiset(),
{
    broadcast use vstd::multiset::group_multiset_axioms;

    assert forall|x: Card|
        shrunk(cards, m).to_multiset().count(x) == without(cards, m).to_multiset().count(x) by {
        shrunk_takes_the_cards_of_the_move(cards, m, x);
        without_takes_the_cards_of_the_move(cards, m, x);
    }
    assert(shrunk(cards, m).to_multiset() =~= without(cards, m).to_multiset());
}

} // verus!
