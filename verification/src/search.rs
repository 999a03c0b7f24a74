//! Moves, and the search for every set among the cards in play.

use crate::cards::{forms_set, is_set, Card};
use vstd::prelude::*;

verus! {

/// Three positions in the play area.
#[derive(Clone, Copy, Debug, PartialEq, Eq, Hash, Structural)]
pub struct Move(pub usize, pub usize, pub usize);

impl Move {
    /// The three positions are pairwise distinct and lie within a play area
    /// of `n` cards.
    pub open spec fn fits(self, n: int) -> bool {
        &&& self.0 != self.1 && self.1 != self.2 && self.0 != self.2
        &&& self.0 < n && self.1 < n && self.2 < n
    }

    /// The positions are given from the lowest to the highest.
    pub open spec fn ascending(self) -> bool {
        self.0 < self.1 < self.2
    }

    /// The cards at the three positions form a set.
    pub open spec fn selects_set(self, cards: Seq<Card>) -> bool {
        forms_set(cards[self.0 as int], cards[self.1 as int], cards[self.2 as int])
    }

    /// The move names a set of `cards` by its positions in ascending order.
    pub open spec fn finds_set(self, cards: Seq<Card>) -> bool {
        self.ascending() && self.2 < cards.len() && self.selects_set(cards)
    }

    /// The move comes before the triple `(i, j, k)` in the order that goes by
    /// the first position, then the second, then the third.
    pub open spec fn precedes(self, i: int, j: int, k: int) -> bool {
        self.0 < i || (self.0 == i && (self.1 < j || (self.1 == j && self.2 < k)))
    }

    /// The move comes before `other` in that order.
    pub open spec fn before(self, other: Move) -> bool {
        self.precedes(other.0 as int, other.1 as int, other.2 as int)
    }

    /// The lowest of the three positions.
    pub open spec fn lowest(self) -> usize {
        if self.0 <= self.1 && self.0 <= self.2 {
            self.0
        } else if self.1 <= self.2 {
            self.1
        } else {
            self.2
        }
    }

    /// The highest of the three positions.
    pub open spec fn highest(self) -> usize {
        if self.0 >= self.1 && self.0 >= self.2 {
            self.0
        } else if self.1 >= self.2 {
            self.1
        } else {
            self.2
        }
    }

    /// The position between the lowest and the highest.
    pub open spec fn middle(self) -> usize {
        (self.0 + self.1 + self.2 - self.lowest() - self.highest()) as usize
    }

    /// Whether position `i` is one of the three.
    pub open spec fn names(self, i: int) -> bool {
        self.0 == i || self.1 == i || self.2 == i
    }
}

/// The three positions of a move in ascending order.
pub fn sorted_move(mve: &Move) -> (v: Vec<usize>)
    ensures
        v@ == seq![mve.lowest(), mve.middle(), mve.highest()],
        v@[0] <= v@[1] <= v@[2],
{
    let mut a: usize = mve.0;
    let mut b: usize = mve.1;
    let mut c: usize = mve.2;
    if a > b {
        let t: usize = a;
        a = b;
        b = t;
    }
    if b > c {
        let t: usize = b;
        b = c;
        c = t;
    }
    if a > b {
        let t: usize = a;
        a = b;
        b = t;
    }
    let mut v: Vec<usize> = Vec::with_capacity(3);
    v.push(a);
    v.push(b);
    v.push(c);
    v
}

/// Every set among `cards`, each named once by its positions in ascending
/// order; the sets come ordered by first position, then second, then third.
pub fn find_sets_among(cards: &[Card]) -> (sets: Vec<Move>)
    ensures
        forall|x: int| 0 <= x < sets@.len() ==> (#[trigger] sets@[x]).finds_set(cards@),
        forall|m: Move| m.finds_set(cards@) ==> sets@.contains(m),
        forall|x: int, y: int|
            0 <= x < y < sets@.len() ==> (#[trigger] sets@[x]).before(#[trigger] sets@[y]),
{
    let n: usize = cards.len();
    let mut sets: Vec<Move> = Vec::new();
    let mut i: usize = 0;
    while i < n
        invariant
            n == cards@.len(),
            i <= n,
            forall|x: int| 0 <= x < sets@.len() ==> (#[trigger] sets@[x]).finds_set(cards@),
            forall|x: int| 0 <= x < sets@.len() ==> (#[trigger] sets@[x]).precedes(i as int, 0, 0),
            forall|m: Move|
                m.finds_set(cards@) && m.precedes(i as int, 0, 0) ==> sets@.contains(m),
            forall|x: int, y: int|
                0 <= x < y < sets@.len() ==> (#[trigger] sets@[x]).before(#[trigger] sets@[y]),
        decreases n - i,
    {
        let mut j: usize = i + 1;
        while j < n
            invariant
                n == cards@.len(),
                i < j <= n,
                forall|x: int| 0 <= x < sets@.len() ==> (#[trigger] sets@[x]).finds_set(cards@),
                forall|x: int|
                    0 <= x < sets@.len() ==> (#[trigger] sets@[x]).precedes(i as int, j as int, 0),
                forall|m: Move|
                    m.finds_set(cards@) && m.precedes(i as int, j as int, 0) ==> sets@.contains(m),
                forall|x: int, y: int|
                    0 <= x < y < sets@.len() ==> (#[trigger] sets@[x]).before(
                        #[trigger] sets@[y],
                    ),
            decreases n - j,
        {
            let mut k: usize = j + 1;
            while k < n
                invariant
                    n == cards@.len(),
                    i < j < k <= n,
                    forall|x: int|
                        0 <= x < sets@.len() ==> (#[trigger] sets@[x]).finds_set(cards@),
                    forall|x: int|
                        0 <= x < sets@.len() ==> (#[trigger] sets@[x]).precedes(
                            i as int,
                            j as int,
                            k as int,
                        ),
                    forall|m: Move|
                        m.finds_set(cards@) && m.precedes(i as int, j as int, k as int)
                            ==> sets@.contains(m),
                    forall|x: int, y: int|
                        0 <= x < y < sets@.len() ==> (#[trigger] sets@[x]).before(
                            #[trigger] sets@[y],
                        ),
                decreases n - k,
            {
                let ghost before = sets@;
                if is_set(&cards[i], &cards[j], &cards[k]) {
                    sets.push(Move(i, j, k));
                    assert(sets@[before.len() as int] == Move(i, j, k));
                    assert forall|m: Move|
                        m.finds_set(cards@) && m.precedes(
                            i as int,
                            j as int,
                            k as int + 1,
                        ) implies sets@.contains(m) by {
                        if m.precedes(i as int, j as int, k as int) {
                            let x = choose|x: int| 0 <= x < before.len() && before[x] == m;
                            assert(sets@[x] == m);
                        } else {
                            assert(m == Move(i, j, k));
                            assert(sets@[before.len() as int] == m);
                        }
                    }
                }
                k += 1;
            }
            j += 1;
        }
        i += 1;
    }
    sets
}

/// Whether any three of `cards` form a set.
pub fn has_set(cards: &[Card]) -> (found: bool)
    ensures
        found == exists|m: Move| m.finds_set(cards@),
{
    let sets = find_sets_among(cards);
    proof {
        if sets@.len() > 0 {
            assert(sets@[0].finds_set(cards@));
        } else {
            assert forall|m: Move| !m.finds_set(cards@) by {
                if m.finds_set(cards@) {
                    assert(sets@.contains(m));
                }
            }
        }
    }
    sets.len() > 0
}

/// A move that the search finds names three different cards in play that
/// form a set.
pub proof fn a_found_move_is_a_set(cards: Seq<Card>, m: Move)
    requires
        m.finds_set(cards),
    ensures
        m.fits(cards.len() as int),
        m.selects_set(cards),
{
}

/// Where the search finds no set, no move names a set, in whatever order it
/// gives the positions.
pub proof fn no_found_move_means_no_set(cards: Seq<Card>, m: Move)
    requires
        forall|found: Move| !found.finds_set(cards),
        m.fits(cards.len() as int),
    ensures
        !m.selects_set(cards),
{
    let sorted = Move(m.lowest(), m.middle(), m.highest());
    crate::cards::forms_set_in_any_order(
        cards[m.0 as int],
        cards[m.1 as int],
        cards[m.2 as int],
    );
    assert(!sorted.finds_set(cards));
}

} // verus!
