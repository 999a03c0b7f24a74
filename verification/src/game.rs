//! The classic game: a deck, the cards in play and a score.
//!
//! The top of the deck is its last card. A game starts with twelve cards in
//! play; a set that is found is replaced from the deck while there are no more
//! than twelve cards in play, and taken away without replacement otherwise.

use crate::cards::{is_set, Card};
use crate::deck::make_shuffled_deck;
use crate::play_area::{
    hit, hits, replace, replaced, replaced_swaps_the_cards_of_the_move, shrink, shrunk,
    shrunk_takes_the_cards_of_the_move, take_away, without, without_takes_the_cards_of_the_move,
};
use crate::search::{find_sets_among, Move};
use vstd::multiset::Multiset;
use vstd::prelude::*;

verus! {

/// The number of cards in play that the game keeps to while the deck lasts.
pub const STEADY_SIZE: usize = 12;

#[derive(Clone, Copy, Debug, PartialEq, Eq, Hash, Structural)]
pub enum PlayError {
    InvalidMove,
    NotASet,
}

/// What a game holds: the deck with its top last, the cards in play in the
/// order of their positions, and the score.
pub struct GameView {
    pub deck: Seq<Card>,
    pub in_play: Seq<Card>,
    pub score: int,
}

#[derive(Debug)]
pub struct Game {
    deck: Vec<Card>,
    in_play: Vec<Card>,
    score: i32,
}

impl View for Game {
    type V = GameView;

    closed spec fn view(&self) -> GameView {
        GameView { deck: self.deck@, in_play: self.in_play@, score: self.score as int }
    }
}

impl GameView {
    /// The cards that a game starts from: all in the deck, none in play.
    pub open spec fn fresh(deck: Seq<Card>) -> GameView {
        GameView { deck, in_play: Seq::empty(), score: 0 }
    }

    /// How many cards the play area lacks to hold twelve.
    pub open spec fn missing(self) -> int {
        if self.in_play.len() < STEADY_SIZE {
            STEADY_SIZE - self.in_play.len()
        } else {
            0
        }
    }

    /// The game after `k` cards went from the top of the deck to the end of
    /// the play area, one by one.
    pub open spec fn after_dealing(self, k: int) -> GameView {
        let d = self.deck.len();
        GameView {
            deck: self.deck.take(d - k),
            in_play: self.in_play + self.deck.skip(d - k).reverse(),
            score: self.score,
        }
    }

    /// The game after three more cards were dealt, at the cost of a point.
    pub open spec fn after_draw_3(self) -> GameView {
        GameView { score: self.score - 1, ..self.after_dealing(3) }
    }

    /// The game after a wrong guess.
    pub open spec fn after_miss(self) -> GameView {
        GameView { score: self.score - 1, ..self }
    }

    /// The game after the set at the positions of `m` was taken.
    pub open spec fn after_set(self, m: Move) -> GameView {
        let d = self.deck.len();
        if d == 0 {
            GameView { in_play: without(self.in_play, m), score: self.score + 1, ..self }
        } else if self.in_play.len() <= STEADY_SIZE {
            GameView {
                deck: self.deck.take(d - 3),
                in_play: replaced(self.in_play, self.deck, m),
                score: self.score + 1,
            }
        } else {
            GameView { in_play: shrunk(self.in_play, m), score: self.score + 1, ..self }
        }
    }

    /// The move can be attempted: the score has room for the point that is
    /// won or lost, and where the set is to be replaced the deck holds the
    /// three cards for it.
    pub open spec fn admits(self, m: Move) -> bool {
        m.fits(self.in_play.len() as int) ==> if m.selects_set(self.in_play) {
            &&& self.score < i32::MAX
            &&& 0 < self.deck.len() && self.in_play.len() <= STEADY_SIZE ==> self.deck.len() >= 3
        } else {
            self.score > i32::MIN
        }
    }

    /// The number of cards in the deck and in play.
    pub open spec fn card_count(self) -> nat {
        self.deck.len() + self.in_play.len()
    }
}

impl Game {
    pub fn get_score(&self) -> (score: i32)
        ensures
            score == self@.score,
    {
        self.score
    }

    pub fn remaining_cards(&self) -> (count: usize)
        ensures
            count == self@.deck.len(),
    {
        self.deck.len()
    }

    pub fn cards_in_play(&self) -> (cards: &[Card])
        ensures
            cards@ == self@.in_play,
    {
        self.in_play.as_slice()
    }

    /// A game on the given deck: its top twelve cards are dealt, or all of
    /// them where it holds fewer.
    pub fn deal(deck: Vec<Card>) -> (game: Game)
        ensures
            deck@.len() >= STEADY_SIZE ==> game@ == GameView::fresh(deck@).after_dealing(
                STEADY_SIZE as int,
            ),
            deck@.len() < STEADY_SIZE ==> game@ == GameView::fresh(deck@).after_dealing(
                deck@.len() as int,
            ),
            game@.card_count() == deck@.len(),
    {
        let game = Game { deck, in_play: Vec::new(), score: 0 };
        match draw_until_12(game) {
            Ok(game) => game,
            Err(game) => game,
        }
    }

    /// A game on a freshly shuffled full deck, with twelve cards in play.
    pub fn new() -> (game: Game)
        ensures
            game@.in_play.len() == STEADY_SIZE,
            game@.deck.len() == 69,
            game@.score == 0,
            crate::deck::is_shuffled_deck(game@.deck + game@.in_play.reverse()),
    {
        let deck = make_shuffled_deck();
        let ghost cards = deck@;
        let game = Game::deal(deck);
        proof {
            assert(cards.skip(69).reverse().reverse() =~= cards.skip(69));
            assert(game@.in_play =~= cards.skip(69).reverse());
            assert(game@.deck + game@.in_play.reverse() =~= cards);
        }
        game
    }

    /// Deals three more cards, for when no set is found among those in play.
    /// This costs a point. With fewer than three cards in the deck nothing
    /// changes.
    pub fn draw_3(&mut self) -> (result: Result<(), ()>)
        requires
            old(self)@.deck.len() >= 3 ==> old(self)@.score > i32::MIN,
        ensures
            result is Ok <==> old(self)@.deck.len() >= 3,
            result is Ok ==> final(self)@ == old(self)@.after_draw_3(),
            result is Ok ==> final(self)@.score == old(self)@.score - 1,
            result is Err ==> final(self)@ == old(self)@,
            final(self)@.card_count() == old(self)@.card_count(),
    {
        if self.deck.len() < 3 {
            return Err(());
        }
        let ghost before = self@;
        let mut drawn: usize = 0;
        proof {
            assert(before.after_dealing(0).deck =~= before.deck);
            assert(before.after_dealing(0).in_play =~= before.in_play);
        }
        while drawn < 3
            invariant
                drawn <= 3,
                before.deck.len() >= 3,
                self@ == before.after_dealing(drawn as int),
            decreases 3 - drawn,
        {
            let card = self.deck.pop().unwrap();
            self.in_play.push(card);
            drawn += 1;
            proof {
                let d = before.deck.len() as int;
                assert(self@.deck =~= before.deck.take(d - drawn));
                assert(before.deck.skip(d - drawn).reverse() =~= before.deck.skip(
                    d - (drawn - 1),
                ).reverse().push(card));
                assert(self@.in_play =~= before.in_play + before.deck.skip(d - drawn).reverse());
            }
        }
        self.score = self.score - 1;
        Ok(())
    }

    /// Takes the set at the three positions of `mve`, for a point. A move
    /// that does not name three different cards in play changes nothing; one
    /// that names three cards which form no set costs a point.
    pub fn attempt_move(&mut self, mve: &Move) -> (result: Result<(), PlayError>)
        requires
            old(self)@.admits(*mve),
        ensures
            match result {
                Ok(()) => {
                    &&& mve.fits(old(self)@.in_play.len() as int)
                    &&& mve.selects_set(old(self)@.in_play)
                    &&& final(self)@ == old(self)@.after_set(*mve)
                },
                Err(PlayError::InvalidMove) => {
                    &&& !mve.fits(old(self)@.in_play.len() as int)
                    &&& final(self)@ == old(self)@
                },
                Err(PlayError::NotASet) => {
                    &&& mve.fits(old(self)@.in_play.len() as int)
                    &&& !mve.selects_set(old(self)@.in_play)
                    &&& final(self)@ == old(self)@.after_miss()
                },
            },
            result is Ok ==> final(self)@.score == old(self)@.score + 1,
            result == Err::<(), PlayError>(PlayError::NotASet) ==> final(self)@.score == old(
                self,
            )@.score - 1,
            result == Err::<(), PlayError>(PlayError::InvalidMove) ==> final(self)@.score == old(
                self,
            )@.score,
            result is Ok ==> final(self)@.card_count() == old(self)@.card_count() - 3,
            result is Err ==> final(self)@.deck == old(self)@.deck && final(self)@.in_play == old(
                self,
            )@.in_play,
            result is Ok && old(self)@.deck.len() > 0 && old(self)@.in_play.len() == STEADY_SIZE
                ==> final(self)@.in_play.len() == STEADY_SIZE,
    {
        let c1: usize = mve.0;
        let c2: usize = mve.1;
        let c3: usize = mve.2;
        let n: usize = self.in_play.len();
        if c1 == c2 || c2 == c3 || c1 == c3 || c1 >= n || c2 >= n || c3 >= n {
            return Err(PlayError::InvalidMove);
        }
        let card1 = self.in_play[c1];
        let card2 = self.in_play[c2];
        let card3 = self.in_play[c3];
        if !is_set(&card1, &card2, &card3) {
            self.score = self.score - 1;
            return Err(PlayError::NotASet);
        }
        self.score = self.score + 1;
        if self.deck.len() == 0 {
            take_away(&mut self.in_play, mve);
        } else if n <= STEADY_SIZE {
            replace(&mut self.deck, &mut self.in_play, mve);
        } else {
            shrink(&mut self.in_play, mve);
        }
        Ok(())
    }
}

/// Deals from the top of the deck until twelve cards are in play. Where the
/// deck runs out first, every card of it is dealt and the game comes back as
/// the error.
pub fn draw_until_12(g: Game) -> (result: Result<Game, Game>)
    ensures
        match result {
            Ok(game) => g@.deck.len() >= g@.missing() && game@ == g@.after_dealing(g@.missing()),
            Err(game) => g@.deck.len() < g@.missing() && game@ == g@.after_dealing(
                g@.deck.len() as int,
            ),
        },
{
    let ghost before = g@;
    let ghost d = before.deck.len() as int;
    let mut game = g;
    let mut dealt: usize = 0;
    proof {
        assert(before.after_dealing(0).deck =~= before.deck);
        assert(before.after_dealing(0).in_play =~= before.in_play);
    }
    while game.in_play.len() < STEADY_SIZE
        invariant
            before == g@,
            d == before.deck.len(),
            dealt <= d,
            dealt <= before.missing(),
            game@ == before.after_dealing(dealt as int),
        decreases STEADY_SIZE - game.in_play.len(),
    {
        match game.deck.pop() {
            Some(card) => {
                game.in_play.push(card);
                dealt += 1;
                proof {
                    assert(game@.deck =~= before.deck.take(d - dealt));
                    assert(before.deck.skip(d - dealt).reverse() =~= before.deck.skip(
                        d - (dealt - 1),
                    ).reverse().push(card));
                    assert(game@.in_play =~= before.in_play + before.deck.skip(
                        d - dealt,
                    ).reverse());
                }
            },
            None => {
                assert(game@.deck.len() == d - dealt);
                return Err(game);
            },
        }
    }
    Ok(game)
}

/// A game on a freshly shuffled full deck, with twelve cards in play.
pub fn new_game() -> (game: Game)
    ensures
        game@.in_play.len() == STEADY_SIZE,
        game@.deck.len() == 69,
        game@.score == 0,
        crate::deck::is_shuffled_deck(game@.deck + game@.in_play.reverse()),
{
    Game::new()
}

/// Deals three more cards, at the cost of a point. With fewer than three
/// cards in the deck the game comes back unchanged, as the error.
pub fn draw_3(g: Game) -> (result: Result<Game, Game>)
    requires
        g@.deck.len() >= 3 ==> g@.score > i32::MIN,
    ensures
        match result {
            Ok(game) => g@.deck.len() >= 3 && game@ == g@.after_draw_3() && game@.score
                == g@.score - 1 && game@.card_count() == g@.card_count(),
            Err(game) => g@.deck.len() < 3 && game@ == g@,
        },
{
    let mut g = g;
    match g.draw_3() {
        Ok(()) => Ok(g),
        Err(()) => Err(g),
    }
}

/// Every set among the cards in play.
pub fn find_sets(g: &Game) -> (sets: Vec<Move>)
    ensures
        forall|x: int| 0 <= x < sets@.len() ==> (#[trigger] sets@[x]).finds_set(g@.in_play),
        forall|m: Move| m.finds_set(g@.in_play) ==> sets@.contains(m),
        forall|x: int, y: int|
            0 <= x < y < sets@.len() ==> (#[trigger] sets@[x]).before(#[trigger] sets@[y]),
{
    find_sets_among(g.in_play.as_slice())
}

/// Takes the set at the three positions of `mve`, for a point. A move that
/// does not name three different cards in play gives the game back unchanged,
/// with the error; one that names three cards which form no set gives it back
/// a point poorer.
pub fn attempt_move(g: Game, mve: &Move) -> (result: Result<Game, (Game, PlayError)>)
    requires
        g@.admits(*mve),
    ensures
        match result {
            Ok(game) => {
                &&& mve.fits(g@.in_play.len() as int)
                &&& mve.selects_set(g@.in_play)
                &&& game@ == g@.after_set(*mve)
                &&& game@.score == g@.score + 1
            },
            Err((game, PlayError::InvalidMove)) => {
                &&& !mve.fits(g@.in_play.len() as int)
                &&& game@ == g@
            },
            Err((game, PlayError::NotASet)) => {
                &&& mve.fits(g@.in_play.len() as int)
                &&& !mve.selects_set(g@.in_play)
                &&& game@ == g@.after_miss()
                &&& game@.score == g@.score - 1
            },
        },
{
    let mut game = g;
    match game.attempt_move(mve) {
        Ok(()) => Ok(game),
        Err(error) => Err((game, error)),
    }
}

impl GameView {
    /// The cards of the game, in the deck or in play, each as often as it is
    /// there.
    pub open spec fn cards(self) -> Multiset<Card> {
        self.deck.to_multiset().add(self.in_play.to_multiset())
    }

    /// No card is in the game twice.
    pub open spec fn has_no_card_twice(self) -> bool {
        forall|card: Card| self.cards().count(card) <= 1
    }
}

/// Dealing moves cards from the deck into play, and a wrong guess moves
/// none: the game holds the same cards afterwards as before.
pub proof fn dealing_keeps_the_cards(v: GameView, k: int)
    requires
        0 <= k <= v.deck.len(),
    ensures
        v.after_dealing(k).cards() == v.cards(),
        v.after_dealing(k).card_count() == v.card_count(),
        k == 3 ==> v.after_draw_3().cards() == v.cards(),
        v.after_miss().cards() == v.cards(),
{
    broadcast use vstd::multiset::group_multiset_axioms;

    let d = v.deck.len() as int;
    let rest = v.deck.take(d - k);
    let dealt = v.deck.skip(d - k);
    assert(v.deck =~= rest + dealt);
    vstd::seq_lib::lemma_multiset_commutative(rest, dealt);
    vstd::seq_lib::lemma_multiset_commutative(v.in_play, dealt.reverse());
    dealt.lemma_reverse_to_multiset();
    assert(v.after_dealing(k).cards() =~= v.cards());
}

/// Without its top three cards the deck holds each card as often as before,
/// less those three.
proof fn lemma_deck_less_three(deck: Seq<Card>, x: Card)
    requires
        deck.len() >= 3,
    ensures
        deck.take(deck.len() - 3).to_multiset().count(x) == deck.to_multiset().count(x) - hit(
            deck[deck.len() - 1],
            x,
        ) - hit(deck[deck.len() - 2], x) - hit(deck[deck.len() - 3], x),
{
    broadcast use vstd::multiset::group_multiset_axioms;

    let d = deck.len() as int;
    let rest = deck.take(d - 3);
    let r1 = rest.push(deck[d - 3]);
    let r2 = r1.push(deck[d - 2]);
    assert(deck =~= r2.push(deck[d - 1]));
    vstd::seq_lib::to_multiset_build(rest, deck[d - 3]);
    vstd::seq_lib::to_multiset_build(r1, deck[d - 2]);
    vstd::seq_lib::to_multiset_build(r2, deck[d - 1]);
}

/// Taking a set lets its three cards leave the game and no other card: with
/// them added again, the game holds the cards that it held before. So three
/// cards fewer are in the game, and none is there twice that was not before.
pub proof fn a_set_takes_its_three_cards(v: GameView, m: Move)
    requires
        m.fits(v.in_play.len() as int),
        0 < v.deck.len() && v.in_play.len() <= STEADY_SIZE ==> v.deck.len() >= 3,
    ensures
        v.after_set(m).cards().insert(v.in_play[m.0 as int]).insert(v.in_play[m.1 as int]).insert(
            v.in_play[m.2 as int],
        ) == v.cards(),
        v.after_set(m).card_count() == v.card_count() - 3,
        v.has_no_card_twice() ==> v.after_set(m).has_no_card_twice(),
{
    broadcast use vstd::multiset::group_multiset_axioms;

    let c1 = v.in_play[m.0 as int];
    let c2 = v.in_play[m.1 as int];
    let c3 = v.in_play[m.2 as int];
    let after = v.after_set(m);
    let restored = after.cards().insert(c1).insert(c2).insert(c3);
    assert forall|x: Card| restored.count(x) == v.cards().count(x) by {
        without_takes_the_cards_of_the_move(v.in_play, m, x);
        shrunk_takes_the_cards_of_the_move(v.in_play, m, x);
        if 0 < v.deck.len() && v.in_play.len() <= STEADY_SIZE {
            replaced_swaps_the_cards_of_the_move(v.in_play, v.deck, m, x);
            lemma_deck_less_three(v.deck, x);
        }
        assert(restored.count(x) == after.cards().count(x) + hits(v.in_play, m, x));
    }
    assert(restored =~= v.cards());
    if v.has_no_card_twice() {
        assert forall|x: Card| after.cards().count(x) <= 1 by {
            assert(after.cards().count(x) <= restored.count(x));
            assert(v.cards().count(x) <= 1);
        }
    }
}

/// A game that starts from a deck without a card twice has no card twice,
/// and as many cards as the deck.
pub proof fn a_fresh_game_holds_the_deck(deck: Seq<Card>)
    ensures
        GameView::fresh(deck).cards() == deck.to_multiset(),
        GameView::fresh(deck).card_count() == deck.len(),
        deck.no_duplicates() ==> GameView::fresh(deck).has_no_card_twice(),
{
    broadcast use vstd::multiset::group_multiset_axioms;
    broadcast use vstd::seq_lib::group_to_multiset_ensures;

    assert(Seq::<Card>::empty().to_multiset().len() == 0);
    assert(Seq::<Card>::empty().to_multiset() =~= Multiset::<Card>::empty());
    assert(GameView::fresh(deck).cards() =~= deck.to_multiset());
    if deck.no_duplicates() {
        deck.lemma_multiset_has_no_duplicates();
    }
}

/// A set that is taken wins a point; a wrong guess and a draw cost one.
pub proof fn each_step_moves_the_score_by_one(v: GameView, m: Move)
    ensures
        v.after_set(m).score == v.score + 1,
        v.after_miss().score == v.score - 1,
        v.after_draw_3().score == v.score - 1,
        v.after_miss().deck == v.deck && v.after_miss().in_play == v.in_play,
{
}

/// A set that is taken from twelve cards in play while the deck lasts leaves
/// twelve cards in play, and the deck three cards shorter.
pub proof fn a_replaced_set_keeps_twelve_in_play(v: GameView, m: Move)
    requires
        m.fits(v.in_play.len() as int),
        v.deck.len() > 0,
        v.in_play.len() == STEADY_SIZE,
    ensures
        v.after_set(m).in_play.len() == STEADY_SIZE,
        v.deck.len() >= 3 ==> v.after_set(m).deck.len() == v.deck.len() - 3,
        forall|i: int|
            0 <= i < STEADY_SIZE && !m.names(i) ==> #[trigger] v.after_set(m).in_play[i]
                == v.in_play[i],
{
}

/// A draw puts the top three cards of the deck at the end of the play area,
/// the top card first, and moves no other card.
pub proof fn a_draw_appends_the_top_of_the_deck(v: GameView)
    requires
        v.deck.len() >= 3,
    ensures
        ({
            let d = v.deck.len() as int;
            &&& v.after_draw_3().in_play == v.in_play + seq![
                v.deck[d - 1],
                v.deck[d - 2],
                v.deck[d - 3],
            ]
            &&& v.after_draw_3().deck == v.deck.take(d - 3)
            &&& v.after_draw_3().card_count() == v.card_count()
        }),
{
    let d = v.deck.len() as int;
    assert(v.deck.skip(d - 3).reverse() =~= seq![v.deck[d - 1], v.deck[d - 2], v.deck[d - 3]]);
}

/// In a crowded play area a set leaves with as few cards moved as can be:
/// three positions fewer, every card below them that the move does not name
/// where it was, and the deck as it was.
pub proof fn a_crowded_play_area_shrinks(v: GameView, m: Move)
    requires
        m.fits(v.in_play.len() as int),
        v.deck.len() > 0,
        v.in_play.len() > STEADY_SIZE,
    ensures
        v.after_set(m).deck == v.deck,
        v.after_set(m).in_play.len() == v.in_play.len() - 3,
        forall|i: int|
            0 <= i < v.in_play.len() - 3 && !m.names(i) ==> #[trigger] v.after_set(m).in_play[i]
                == v.in_play[i],
        v.after_set(m).in_play.to_multiset() == without(v.in_play, m).to_multiset(),
{
    crate::play_area::shrunk_moves_no_more_than_needed(v.in_play, m);
}

} // verus!

