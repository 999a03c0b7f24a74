//! The play area of a marked game.

use crate::cards::{forms_set, is_set, Card};
use crate::game::PlayError;
use crate::isolated::engine::{faces, CoreState, GameCard, GameCore, STEADY_SIZE};
use crate::isolated::moving::{
    lemma_faces_remove, lemma_faces_update, lemma_out_and_in, take_out, take_out_crowded,
};
use crate::play_area::{replaced, shrunk, without};
use crate::search::{find_sets_among, sorted_move, Move};
use vstd::prelude::*;

verus! {

/// What a marked game holds: its core, and the cards that its cards in
/// play show, in the order of their positions.
pub struct TableView {
    pub core: CoreState,
    pub in_play: Seq<Card>,
}

impl TableView {
    /// The three positions of a move, the lowest first.
    pub open spec fn ascending(m: Move) -> Move {
        Move(m.lowest(), m.middle(), m.highest())
    }

    /// The move can be attempted: for a set, the core counts three cards in
    /// play and the score has room for a point more; for three cards that
    /// form no set, the score has room for a point less.
    pub open spec fn admits(self, m: Move) -> bool {
        m.fits(self.in_play.len() as int) ==> if m.selects_set(self.in_play) {
            self.core.extant >= 3 && self.core.score < i32::MAX
        } else {
            self.core.score > i32::MIN
        }
    }

    /// More cards are in play than the game keeps to, and the deck is not
    /// used up.
    pub open spec fn crowded(self) -> bool {
        self.core.deck.len() > 0 && self.in_play.len() > STEADY_SIZE
    }

    /// The cards in play after the set at the positions of `m` was taken.
    /// Where the core deals three cards for it, they take the places of the
    /// set, the top card of the deck the lowest place. Else, in a crowded
    /// play area, the play area loses its last three positions and as few
    /// cards move as can be, the last card going to the lowest place of the
    /// set. Else the set leaves and the cards behind it move up.
    pub open spec fn in_play_after_set(self, m: Move) -> Seq<Card> {
        if self.core.refills() {
            replaced(self.in_play, self.core.deck, Self::ascending(m))
        } else if self.crowded() {
            shrunk(self.in_play, Self::ascending(m))
        } else {
            without(self.in_play, m)
        }
    }

    /// The game after the set at the positions of `m` was taken.
    pub open spec fn after_set(self, m: Move) -> TableView {
        TableView { core: self.core.after_set(), in_play: self.in_play_after_set(m) }
    }

    /// The game after a wrong guess.
    pub open spec fn after_miss(self) -> TableView {
        TableView { core: CoreState { score: self.core.score - 1, ..self.core }, ..self }
    }

    /// The game after three more cards were dealt, at the cost of a point.
    pub open spec fn after_draw_3(self) -> TableView {
        TableView {
            core: CoreState { score: self.core.score - 1, ..self.core.after_dealing_3() },
            in_play: self.in_play + self.core.top_3(),
        }
    }
}

pub struct Game<'a> {
    core: GameCore<'a>,
    in_play: Vec<GameCard<'a>>,
}

impl<'a> View for Game<'a> {
    type V = TableView;

    closed spec fn view(&self) -> TableView {
        TableView { core: self.core@, in_play: faces(self.in_play@) }
    }
}

/// Moves the items of an array into a vector, with `Vec::from`: the vector
/// holds the items of the array in their order.
#[verifier::external_body]
fn into_vec<T, const N: usize>(items: [T; N]) -> (v: Vec<T>)
    ensures
        v@ == items@,
{
    Vec::from(items)
}

/// Puts three cards into play at the three positions, the lowest first.
fn put_in<'a>(in_play: &mut Vec<GameCard<'a>>, cards: [GameCard<'a>; 3], c1: usize, c2: usize, c3: usize)
    requires
        c1 < c2 < c3 <= old(in_play)@.len() + 2,
    ensures
        final(in_play)@ == old(in_play)@.insert(c1 as int, cards@[0]).insert(
            c2 as int,
            cards@[1],
        ).insert(c3 as int, cards@[2]),
{
    let mut v = into_vec(cards);
    let third = v.pop().unwrap();
    let second = v.pop().unwrap();
    let first = v.pop().unwrap();
    in_play.insert(c1, first);
    in_play.insert(c2, second);
    in_play.insert(c3, third);
}

/// The cards that a move names form a set in whatever order they are taken.
proof fn lemma_set_of_sorted(shown: Seq<Card>, m: Move)
    requires
        m.fits(shown.len() as int),
    ensures
        m.selects_set(shown) == forms_set(
            shown[m.lowest() as int],
            shown[m.middle() as int],
            shown[m.highest() as int],
        ),
        m.selects_set(shown) == TableView::ascending(m).selects_set(shown),
        TableView::ascending(m).fits(shown.len() as int),
        m.lowest() < m.middle() < m.highest() < shown.len(),
{
    crate::cards::forms_set_in_any_order(shown[m.0 as int], shown[m.1 as int], shown[m.2 as int]);
}

/// Taking the three cards of a move out of play, the highest first, takes
/// the cards that they show out of the cards shown.
proof fn lemma_faces_of_out<'a>(marked: Seq<GameCard<'a>>, m: Move)
    requires
        m.fits(marked.len() as int),
    ensures
        faces(
            marked.remove(m.highest() as int).remove(m.middle() as int).remove(m.lowest() as int),
        ) == without(faces(marked), m),
{
    let hi = m.highest() as int;
    let mid = m.middle() as int;
    let lo = m.lowest() as int;
    let s1 = marked.remove(hi);
    let s2 = s1.remove(mid);
    lemma_faces_remove(marked, hi);
    lemma_faces_remove(s1, mid);
    lemma_faces_remove(s2, lo);
}

/// Putting three cards in where the cards of a move were taken out shows
/// their cards at the positions of the move, and all else as it was.
proof fn lemma_faces_of_in<'a>(
    marked: Seq<GameCard<'a>>,
    m: Move,
    a: GameCard<'a>,
    b: GameCard<'a>,
    c: GameCard<'a>,
)
    requires
        m.fits(marked.len() as int),
    ensures
        faces(
            marked.remove(m.highest() as int).remove(m.middle() as int).remove(
                m.lowest() as int,
            ).insert(m.lowest() as int, a).insert(m.middle() as int, b).insert(
                m.highest() as int,
                c,
            ),
        ) == faces(marked).update(m.lowest() as int, a@).update(m.middle() as int, b@).update(
            m.highest() as int,
            c@,
        ),
{
    let hi = m.highest() as int;
    let mid = m.middle() as int;
    let lo = m.lowest() as int;
    lemma_out_and_in(marked, lo, mid, hi, a, b, c);
    let u1 = marked.update(lo, a);
    let u2 = u1.update(mid, b);
    lemma_faces_update(marked, lo, a);
    lemma_faces_update(u1, mid, b);
    lemma_faces_update(u2, hi, c);
}

/// Putting back the cards of a move that were taken out restores the cards
/// shown.
proof fn lemma_faces_restored<'a>(marked: Seq<GameCard<'a>>, m: Move)
    requires
        m.fits(marked.len() as int),
    ensures
        faces(
            marked.remove(m.highest() as int).remove(m.middle() as int).remove(
                m.lowest() as int,
            ).insert(m.lowest() as int, marked[m.lowest() as int]).insert(
                m.middle() as int,
                marked[m.middle() as int],
            ).insert(m.highest() as int, marked[m.highest() as int]),
        ) == faces(marked),
{
    let hi = m.highest() as int;
    let mid = m.middle() as int;
    let lo = m.lowest() as int;
    lemma_faces_of_in(marked, m, marked[lo], marked[mid], marked[hi]);
    assert(faces(marked).update(lo, marked[lo]@).update(mid, marked[mid]@).update(
        hi,
        marked[hi]@,
    ) =~= faces(marked));
}

impl<'a> Game<'a> {
    pub fn get_score(&self) -> (score: i32)
        ensures
            score == self@.core.score,
    {
        self.core.get_score()
    }

    pub fn remaining_cards(&self) -> (count: usize)
        ensures
            count == self@.core.deck.len(),
    {
        self.core.remaining_cards()
    }

    pub fn cards_in_play(&self) -> (cards: &[GameCard<'a>])
        ensures
            faces(cards@) == self@.in_play,
    {
        self.in_play.as_slice()
    }

    /// The game of a core and the twelve cards that it dealt.
    pub fn new(dealt: (GameCore<'a>, [GameCard<'a>; 12])) -> (game: Game<'a>)
        ensures
            game@ == (TableView { core: dealt.0@, in_play: faces(dealt.1@) }),
    {
        let (core, cards) = dealt;
        Game { core, in_play: into_vec(cards) }
    }

    /// Deals three more cards, at the cost of a point. With fewer than three
    /// cards in the deck nothing changes.
    pub fn draw_3(&mut self) -> (result: Result<(), ()>)
        requires
            old(self)@.core.deck.len() >= 3 ==> old(self)@.core.score > i32::MIN && old(
                self,
            )@.core.extant + 3 <= usize::MAX,
        ensures
            result is Ok <==> old(self)@.core.deck.len() >= 3,
            result is Ok ==> final(self)@ == old(self)@.after_draw_3(),
            result is Err ==> final(self)@ == old(self)@,
    {
        match self.core.draw_3() {
            None => Err(()),
            Some(cards) => {
                let ghost before = self.in_play@;
                let mut v = into_vec(cards);
                self.in_play.append(&mut v);
                assert(faces(self.in_play@) =~= faces(before) + faces(cards@));
                Ok(())
            },
        }
    }

    /// The number of cards that the core counts in play.
    pub fn extant_cards(&self) -> (count: usize)
        ensures
            count == self@.core.extant,
    {
        self.core.extant_cards()
    }

    /// Takes the set at the three positions of `mve`, for a point. A move
    /// that does not name three different cards in play changes nothing; one
    /// that names three cards which form no set costs a point.
    pub fn attempt_move(&mut self, mve: Move) -> (result: Result<(), PlayError>)
        requires
            old(self)@.admits(mve),
        ensures
            match result {
                Ok(()) => {
                    &&& mve.fits(old(self)@.in_play.len() as int)
                    &&& mve.selects_set(old(self)@.in_play)
                    &&& final(self)@ == old(self)@.after_set(mve)
                },
                Err(PlayError::InvalidMove) => {
                    &&& !mve.fits(old(self)@.in_play.len() as int)
                    &&& final(self)@ == old(self)@
                },
                Err(PlayError::NotASet) => {
                    &&& mve.fits(old(self)@.in_play.len() as int)
                    &&& !mve.selects_set(old(self)@.in_play)
                    &&& final(self)@ == old(self)@.after_miss()
                },
            },
            result is Ok ==> final(self)@.core.score == old(self)@.core.score + 1,
    {
        let sorted = sorted_move(&mve);
        let c1: usize = sorted[0];
        let c2: usize = sorted[1];
        let c3: usize = sorted[2];
        let n: usize = self.in_play.len();
        if c1 == c2 || c2 == c3 || c3 >= n {
            return Err(PlayError::InvalidMove);
        }
        proof {
            lemma_set_of_sorted(self@.in_play, mve);
        }
        let set = is_set(
            self.in_play[c1].get_card(),
            self.in_play[c2].get_card(),
            self.in_play[c3].get_card(),
        );
        if set && self.leaves_crowded() {
            self.take_from_crowded(Move(c1, c2, c3))
        } else {
            self.take_in_order(mve, c1, c2, c3)
        }
    }

    /// Whether a set that is taken now leaves a crowded play area without
    /// cards dealt for it.
    fn leaves_crowded(&self) -> (crowded: bool)
        requires
            self@.core.extant >= 3,
        ensures
            crowded == (!self@.core.refills() && self@.crowded()),
    {
        let left = self.core.remaining_cards();
        let refills = self.core.extant_cards() - 3 < STEADY_SIZE && left >= 3;
        !refills && left > 0 && self.in_play.len() > STEADY_SIZE
    }

    /// Takes a set out of a crowded play area, for which no cards are dealt.
    fn take_from_crowded(&mut self, sorted: Move) -> (result: Result<(), PlayError>)
        requires
            sorted.fits(old(self)@.in_play.len() as int),
            sorted.selects_set(old(self)@.in_play),
            old(self)@.core.extant >= 3,
            old(self)@.core.score < i32::MAX,
            !old(self)@.core.refills(),
        ensures
            result is Ok,
            final(self)@.core == old(self)@.core.after_set(),
            final(self)@.in_play == shrunk(old(self)@.in_play, sorted),
    {
        let taken = take_out_crowded(&mut self.in_play, &sorted);
        match self.core.make_move(taken) {
            Ok(_) => Ok(()),
            Err(_) => Err(PlayError::NotASet),
        }
    }

    /// Takes three cards out of play for the core to judge, and puts back
    /// what the core hands back: the cards themselves, three new ones, or
    /// nothing.
    fn take_in_order(&mut self, mve: Move, c1: usize, c2: usize, c3: usize) -> (result: Result<
        (),
        PlayError,
    >)
        requires
            mve.fits(old(self)@.in_play.len() as int),
            c1 == mve.lowest() && c2 == mve.middle() && c3 == mve.highest(),
            old(self)@.admits(mve),
        ensures
            result is Ok <==> mve.selects_set(old(self)@.in_play),
            result is Err ==> result == Err::<(), PlayError>(PlayError::NotASet) && final(self)@
                == old(self)@.after_miss(),
            result is Ok ==> final(self)@.core == old(self)@.core.after_set(),
            result is Ok ==> final(self)@.in_play == if old(self)@.core.refills() {
                replaced(old(self)@.in_play, old(self)@.core.deck, TableView::ascending(mve))
            } else {
                without(old(self)@.in_play, mve)
            },
    {
        let ghost marked = self.in_play@;
        proof {
            lemma_set_of_sorted(faces(marked), mve);
            lemma_faces_of_out(marked, mve);
        }
        let taken = take_out(&mut self.in_play, c1, c2, c3);
        match self.core.make_move(taken) {
            Ok(None) => Ok(()),
            Ok(Some(cards)) => {
                proof {
                    lemma_faces_of_in(marked, mve, cards@[0], cards@[1], cards@[2]);
                    assert(faces(cards@)[0] == cards@[0]@);
                    assert(faces(cards@)[1] == cards@[1]@);
                    assert(faces(cards@)[2] == cards@[2]@);
                }
                put_in(&mut self.in_play, cards, c1, c2, c3);
                Ok(())
            },
            Err(cards) => {
                proof {
                    lemma_faces_restored(marked, mve);
                }
                put_in(&mut self.in_play, cards, c1, c2, c3);
                Err(PlayError::NotASet)
            },
        }
    }

    /// Every set among the cards in play.
    pub fn find_sets(&self) -> (sets: Vec<Move>)
        ensures
            forall|x: int| 0 <= x < sets@.len() ==> (#[trigger] sets@[x]).finds_set(self@.in_play),
            forall|m: Move| m.finds_set(self@.in_play) ==> sets@.contains(m),
            forall|x: int, y: int|
                0 <= x < y < sets@.len() ==> (#[trigger] sets@[x]).before(#[trigger] sets@[y]),
    {
        let n: usize = self.in_play.len();
        let mut shown: Vec<Card> = Vec::with_capacity(n);
        let mut i: usize = 0;
        while i < n
            invariant
                n == self.in_play@.len(),
                i <= n,
                shown@ == faces(self.in_play@).take(i as int),
            decreases n - i,
        {
            shown.push(*self.in_play[i].get_card());
            i += 1;
            assert(shown@ =~= faces(self.in_play@).take(i as int));
        }
        assert(shown@ =~= faces(self.in_play@));
        find_sets_among(shown.as_slice())
    }
}

/// In a crowded play area for which the core deals no cards, a set leaves
/// with as few cards moved as can be: three positions fewer, and every card
/// below them that the move does not name where it was.
pub proof fn a_crowded_play_area_shrinks(v: TableView, m: Move)
    requires
        m.fits(v.in_play.len() as int),
        v.crowded(),
        !v.core.refills(),
    ensures
        v.after_set(m).in_play.len() == v.in_play.len() - 3,
        forall|i: int|
            0 <= i < v.in_play.len() - 3 && !m.names(i) ==> #[trigger] v.after_set(m).in_play[i]
                == v.in_play[i],
        v.after_set(m).in_play.to_multiset() == without(v.in_play, m).to_multiset(),
{
    let sorted = TableView::ascending(m);
    crate::play_area::shrunk_moves_no_more_than_needed(v.in_play, sorted);
    assert(without(v.in_play, sorted) == without(v.in_play, m));
    assert forall|i: int| 0 <= i < v.in_play.len() - 3 && !m.names(i) implies #[trigger] shrunk(
        v.in_play,
        sorted,
    )[i] == v.in_play[i] by {
        assert(!sorted.names(i));
    }
}

} // verus!
