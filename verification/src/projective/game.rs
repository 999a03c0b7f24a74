//! The projective game: positions, moves of three cards or more, and the
//! play area of seven cards.

use crate::game::PlayError;
use crate::projective::cards::{make_shuffled_deck, Card};
use vstd::prelude::*;
use vstd::string::StringExecFns;

verus! {

/// The number of cards in play that the game keeps to while the deck lasts.
pub const STEADY_SIZE: usize = 7;

/// The position given was above 6.
#[derive(Clone, Copy, Debug, PartialEq, Eq, Hash, Structural)]
pub struct CardPosError;

impl CardPosError {
    /// What went wrong, in words.
    pub fn to_string(&self) -> (text: String)
        ensures
            text@ == "Card position must be between 0 and 6 (inclusive)"@,
    {
        String::from_str("Card position must be between 0 and 6 (inclusive)")
    }
}

/// A position in the play area, from 0 to 6.
#[derive(Clone, Copy, Debug)]
pub struct CardPos(u8);

impl CardPos {
    /// The position as a number.
    pub closed spec fn index(self) -> int {
        self.0 as int
    }

    #[verifier::type_invariant]
    spec fn in_range(self) -> bool {
        self.0 <= 6
    }

    pub fn build(i: u8) -> (result: Result<CardPos, CardPosError>)
        ensures
            result is Ok <==> i <= 6,
            result matches Ok(pos) ==> pos.index() == i,
    {
        if i > 6 {
            return Err(CardPosError);
        }
        Ok(CardPos(i))
    }

    pub fn get_index(&self) -> (i: u8)
        ensures
            i == self.index(),
            i <= 6,
    {
        proof {
            use_type_invariant(self);
        }
        self.0
    }
}

#[derive(Clone, Copy, Debug, PartialEq, Eq, Hash, Structural)]
pub enum MoveBuildError {
    RepeatCards,
    InsufficientCards,
}

impl MoveBuildError {
    /// What went wrong, in words.
    pub fn to_string(&self) -> (text: String)
        ensures
            text@ == match *self {
                MoveBuildError::RepeatCards => "Repeated card(s)"@,
                MoveBuildError::InsufficientCards => "Insufficient cards (need at least 3)"@,
            },
    {
        match self {
            MoveBuildError::RepeatCards => String::from_str("Repeated card(s)"),
            MoveBuildError::InsufficientCards => String::from_str(
                "Insufficient cards (need at least 3)",
            ),
        }
    }
}

/// The positions as numbers.
pub open spec fn indices(positions: Seq<CardPos>) -> Seq<int> {
    positions.map_values(|pos: CardPos| pos.index())
}

/// Each number is greater than every number after it.
pub open spec fn descending(numbers: Seq<int>) -> bool {
    forall|i: int, j: int| 0 <= i < j < numbers.len() ==> numbers[i] > numbers[j]
}

/// Whether a position occurs twice among `v`.
fn has_repeat(v: &Vec<CardPos>) -> (repeated: bool)
    ensures
        repeated == !indices(v@).no_duplicates(),
{
    let n: usize = v.len();
    let mut i: usize = 0;
    while i < n
        invariant
            n == v@.len(),
            i <= n,
            forall|a: int, b: int|
                0 <= a < i && a < b < n ==> indices(v@)[a] != indices(v@)[b],
        decreases n - i,
    {
        let mut j: usize = i + 1;
        while j < n
            invariant
                n == v@.len(),
                i < j <= n,
                forall|a: int, b: int|
                    0 <= a < i && a < b < n ==> indices(v@)[a] != indices(v@)[b],
                forall|b: int| i < b < j ==> indices(v@)[i as int] != indices(v@)[b],
            decreases n - j,
        {
            if v[i].get_index() == v[j].get_index() {
                assert(indices(v@)[i as int] == indices(v@)[j as int]);
                return true;
            }
            j += 1;
        }
        i += 1;
    }
    assert forall|a: int, b: int|
        0 <= a < indices(v@).len() && 0 <= b < indices(v@).len() && a != b implies indices(v@)[a]
        != indices(v@)[b] by {
        if a < b {
        } else {
            assert(indices(v@)[b] != indices(v@)[a]);
        }
    }
    false
}

/// Where position `p` stands in `v`, if it does.
fn find_position(v: &Vec<CardPos>, p: u8) -> (found: Option<usize>)
    ensures
        match found {
            Some(j) => j < v@.len() && indices(v@)[j as int] == p,
            None => !indices(v@).contains(p as int),
        },
        forall|j: int| 0 <= j < v@.len() ==> 0 <= #[trigger] indices(v@)[j] <= 6,
{
    let n: usize = v.len();
    let mut found: Option<usize> = None;
    let mut j: usize = 0;
    while j < n
        invariant
            n == v@.len(),
            j <= n,
            match found {
                Some(k) => k < j && indices(v@)[k as int] == p,
                None => forall|k: int| 0 <= k < j ==> indices(v@)[k] != p,
            },
            forall|k: int| 0 <= k < j ==> 0 <= #[trigger] indices(v@)[k] <= 6,
        decreases n - j,
    {
        let index = v[j].get_index();
        assert(indices(v@)[j as int] == index);
        if found.is_none() && index == p {
            found = Some(j);
        }
        j += 1;
    }
    found
}

/// The positions of `v`, the highest first.
fn highest_first(v: &Vec<CardPos>) -> (sorted: Vec<CardPos>)
    requires
        indices(v@).no_duplicates(),
    ensures
        descending(indices(sorted@)),
        sorted@.len() == v@.len(),
        forall|p: int| indices(sorted@).contains(p) <==> indices(v@).contains(p),
        forall|j: int| 0 <= j < sorted@.len() ==> 0 <= #[trigger] indices(sorted@)[j] <= 6,
{
    let mut sorted: Vec<CardPos> = Vec::new();
    let mut p: u8 = 7;
    while p > 0
        invariant
            p <= 7,
            descending(indices(sorted@)),
            forall|j: int| 0 <= j < sorted@.len() ==> p <= #[trigger] indices(sorted@)[j] <= 6,
            forall|q: int| p <= q <= 6 ==> (indices(sorted@).contains(q) <==> indices(v@).contains(q)),
            p < 7 ==> forall|j: int| 0 <= j < v@.len() ==> 0 <= #[trigger] indices(v@)[j] <= 6,
        decreases p,
    {
        p -= 1;
        let ghost before = sorted@;
        match find_position(v, p) {
            Some(j) => {
                sorted.push(v[j]);
                assert(indices(sorted@) =~= indices(before).push(p as int));
                assert(indices(sorted@)[before.len() as int] == p);
                assert forall|q: int| p <= q <= 6 implies (indices(sorted@).contains(q)
                    <==> indices(v@).contains(q)) by {
                    if q == p {
                    } else {
                        if indices(before).contains(q) {
                            let k = choose|k: int| 0 <= k < before.len() && indices(before)[k] == q;
                            assert(indices(sorted@)[k] == q);
                        }
                    }
                }
            },
            None => {},
        }
    }
    proof {
        let a = indices(sorted@);
        let b = indices(v@);
        assert forall|q: int| a.contains(q) <==> b.contains(q) by {
            if b.contains(q) {
                let k = choose|k: int| 0 <= k < b.len() && b[k] == q;
                assert(0 <= b[k] <= 6);
            }
            if a.contains(q) {
                let k = choose|k: int| 0 <= k < a.len() && a[k] == q;
                assert(0 <= a[k] <= 6);
            }
        }
        assert(a.no_duplicates());
        a.unique_seq_to_set();
        b.unique_seq_to_set();
        assert(a.to_set() =~= b.to_set());
    }
    sorted
}

/// Three or more different positions, the highest first.
#[derive(Debug)]
pub struct Move(Vec<CardPos>);

impl Move {
    /// The positions of the move as numbers, the highest first.
    pub closed spec fn positions(self) -> Seq<int> {
        indices(self.0@)
    }

    #[verifier::type_invariant]
    spec fn well_formed(self) -> bool {
        &&& self.0@.len() >= 3
        &&& descending(indices(self.0@))
        &&& forall|j: int| 0 <= j < self.0@.len() ==> 0 <= #[trigger] indices(self.0@)[j] <= 6
    }

    /// The move of the given positions, whatever their order. There must be
    /// three of them at least, and none twice.
    pub fn build(v: Vec<CardPos>) -> (result: Result<Move, MoveBuildError>)
        ensures
            match result {
                Ok(mve) => {
                    &&& v@.len() >= 3
                    &&& indices(v@).no_duplicates()
                    &&& descending(mve.positions())
                    &&& mve.positions().len() == v@.len()
                    &&& forall|p: int| mve.positions().contains(p) <==> indices(v@).contains(p)
                },
                Err(MoveBuildError::InsufficientCards) => v@.len() < 3,
                Err(MoveBuildError::RepeatCards) => v@.len() >= 3 && !indices(v@).no_duplicates(),
            },
    {
        if v.len() < 3 {
            return Err(MoveBuildError::InsufficientCards);
        }
        if has_repeat(&v) {
            return Err(MoveBuildError::RepeatCards);
        }
        let sorted = highest_first(&v);
        Ok(Move(sorted))
    }

    /// The positions of the move, the highest first.
    pub fn get_positions(&self) -> (positions: &Vec<CardPos>)
        ensures
            indices(positions@) == self.positions(),
            positions@.len() >= 3,
            descending(self.positions()),
            forall|j: int|
                0 <= j < self.positions().len() ==> 0 <= #[trigger] self.positions()[j] <= 6,
    {
        proof {
            use_type_invariant(self);
        }
        &self.0
    }
}

/// Whether the card has the colour of number `k`: 0 for red, 1 for orange,
/// 2 for yellow, 3 for green, 4 for blue and 5 for purple.
pub open spec fn has_colour(card: Card, k: int) -> bool {
    if k == 0 {
        card.red
    } else if k == 1 {
        card.orange
    } else if k == 2 {
        card.yellow
    } else if k == 3 {
        card.green
    } else if k == 4 {
        card.blue
    } else {
        card.purple
    }
}

/// How many of the cards have the colour of number `k`.
pub open spec fn colour_count(cards: Seq<Card>, k: int) -> nat
    decreases cards.len(),
{
    if cards.len() == 0 {
        0
    } else {
        colour_count(cards.drop_last(), k) + if has_colour(cards.last(), k) {
            1nat
        } else {
            0nat
        }
    }
}

/// The cards form a set: each colour is on an even number of them.
pub open spec fn forms_set(cards: Seq<Card>) -> bool {
    forall|k: int| 0 <= k < 6 ==> #[trigger] colour_count(cards, k) % 2 == 0
}

/// The cards at the given positions, in the order of the positions.
pub open spec fn selected(in_play: Seq<Card>, positions: Seq<int>) -> Seq<Card> {
    positions.map_values(|p: int| in_play[p])
}

/// What a game holds: the deck with its top last, and the cards in play in
/// the order of their positions.
pub struct GameView {
    pub deck: Seq<Card>,
    pub in_play: Seq<Card>,
}

impl GameView {
    /// The game after each of the positions was served in turn: while the
    /// deck lasts, the card there gives its place to the card from the top of
    /// the deck; after that it leaves and the cards behind it move up.
    pub open spec fn after_serving(self, positions: Seq<int>) -> GameView
        decreases positions.len(),
    {
        if positions.len() == 0 {
            self
        } else {
            let p = positions[0];
            let next = if self.deck.len() > 0 {
                GameView {
                    deck: self.deck.drop_last(),
                    in_play: self.in_play.update(p, self.deck.last()),
                }
            } else {
                GameView { deck: self.deck, in_play: self.in_play.remove(p) }
            };
            next.after_serving(positions.drop_first())
        }
    }

    /// Every position lies within the play area.
    pub open spec fn holds(self, positions: Seq<int>) -> bool {
        forall|j: int| 0 <= j < positions.len() ==> 0 <= #[trigger] positions[j] < self.in_play.len()
    }
}

#[derive(Debug)]
pub struct Game {
    deck: Vec<Card>,
    in_play: Vec<Card>,
}

impl View for Game {
    type V = GameView;

    closed spec fn view(&self) -> GameView {
        GameView { deck: self.deck@, in_play: self.in_play@ }
    }
}

impl Game {
    /// A game on the given deck: its top seven cards are dealt, the top card
    /// first, or all of them where it holds fewer.
    pub fn deal(deck: Vec<Card>) -> (game: Game)
        ensures
            ({
                let d = deck@.len() as int;
                let k = if d < STEADY_SIZE {
                    d
                } else {
                    STEADY_SIZE as int
                };
                &&& game@.deck == deck@.take(d - k)
                &&& game@.in_play == deck@.skip(d - k).reverse()
            }),
    {
        let ghost cards = deck@;
        let ghost d = cards.len() as int;
        let mut game = Game { deck, in_play: Vec::new() };
        let mut dealt: usize = 0;
        assert(game.deck@ =~= cards.take(d - 0));
        assert(game.in_play@ =~= cards.skip(d - 0).reverse());
        while dealt < STEADY_SIZE && game.deck.len() > 0
            invariant
                d == cards.len(),
                dealt <= STEADY_SIZE,
                dealt <= d,
                game.deck@ == cards.take(d - dealt),
                game.in_play@ == cards.skip(d - dealt).reverse(),
            decreases STEADY_SIZE - dealt,
        {
            let card = game.deck.pop().unwrap();
            game.in_play.push(card);
            dealt += 1;
            proof {
                assert(game.deck@ =~= cards.take(d - dealt));
                assert(cards.skip(d - dealt).reverse() =~= cards.skip(d - (dealt - 1)).reverse().push(
                    card,
                ));
            }
        }
        game
    }

    /// A game on a freshly shuffled full deck, with seven cards in play.
    pub fn new() -> (game: Game)
        ensures
            game@.in_play.len() == STEADY_SIZE,
            game@.deck.len() == 56,
            crate::projective::cards::is_shuffled_deck(game@.deck + game@.in_play.reverse()),
    {
        let deck = make_shuffled_deck();
        let ghost cards = deck@;
        let game = Game::deal(deck);
        proof {
            assert(cards.skip(56).reverse().reverse() =~= cards.skip(56));
            assert(game@.deck + game@.in_play.reverse() =~= cards);
        }
        game
    }

    pub fn in_play(&self) -> (cards: &[Card])
        ensures
            cards@ == self@.in_play,
    {
        self.in_play.as_slice()
    }

    pub fn remaining_cards(&self) -> (count: usize)
        ensures
            count == self@.deck.len(),
    {
        self.deck.len()
    }
}

/// 1 more than `count` if the colour is there, else `count`.
fn counted(count: usize, present: bool) -> (next: usize)
    requires
        count < usize::MAX,
    ensures
        next == count + if present {
            1int
        } else {
            0int
        },
{
    if present {
        count + 1
    } else {
        count
    }
}

/// Whether the cards at the positions of the move form a set. A move with a
/// position outside the play area is invalid.
pub fn is_set(g: &Game, mve: &Move) -> (result: Result<bool, PlayError>)
    ensures
        match result {
            Ok(valid) => g@.holds(mve.positions()) && valid == forms_set(
                selected(g@.in_play, mve.positions()),
            ),
            Err(error) => error == PlayError::InvalidMove && !g@.holds(mve.positions()),
        },
{
    let positions = mve.get_positions();
    let n: usize = positions.len();
    let ghost all = mve.positions();
    let mut red: usize = 0;
    let mut orange: usize = 0;
    let mut yellow: usize = 0;
    let mut green: usize = 0;
    let mut blue: usize = 0;
    let mut purple: usize = 0;
    let mut i: usize = 0;
    assert(selected(g@.in_play, all.take(0)) =~= Seq::<Card>::empty());
    while i < n
        invariant
            n == positions@.len(),
            all == indices(positions@),
            all == mve.positions(),
            i <= n,
            forall|j: int| 0 <= j < all.len() ==> 0 <= #[trigger] all[j] <= 6,
            forall|j: int| 0 <= j < i ==> 0 <= #[trigger] all[j] < g@.in_play.len(),
            red == colour_count(selected(g@.in_play, all.take(i as int)), 0),
            orange == colour_count(selected(g@.in_play, all.take(i as int)), 1),
            yellow == colour_count(selected(g@.in_play, all.take(i as int)), 2),
            green == colour_count(selected(g@.in_play, all.take(i as int)), 3),
            blue == colour_count(selected(g@.in_play, all.take(i as int)), 4),
            purple == colour_count(selected(g@.in_play, all.take(i as int)), 5),
            red <= i && orange <= i && yellow <= i && green <= i && blue <= i && purple <= i,
        decreases n - i,
    {
        let index: usize = positions[i].get_index() as usize;
        assert(all[i as int] == index);
        if index >= g.in_play.len() {
            return Err(PlayError::InvalidMove);
        }
        let card = &g.in_play[index];
        proof {
            let before = selected(g@.in_play, all.take(i as int));
            let now = selected(g@.in_play, all.take(i + 1));
            assert(now =~= before.push(*card));
            assert(now.drop_last() =~= before);
            assert(now.last() == *card);
        }
        red = counted(red, card.is_red());
        orange = counted(orange, card.is_orange());
        yellow = counted(yellow, card.is_yellow());
        green = counted(green, card.is_green());
        blue = counted(blue, card.is_blue());
        purple = counted(purple, card.is_purple());
        i += 1;
    }
    assert(all.take(n as int) =~= all);
    let valid = red % 2 == 0 && orange % 2 == 0 && yellow % 2 == 0 && green % 2 == 0 && blue % 2
        == 0 && purple % 2 == 0;
    proof {
        let cards = selected(g@.in_play, all);
        if valid {
            assert forall|k: int| 0 <= k < 6 implies #[trigger] colour_count(cards, k) % 2
                == 0 by {
                assert(k == 0 || k == 1 || k == 2 || k == 3 || k == 4 || k == 5);
            }
        } else {
            assert(colour_count(cards, 0) % 2 != 0 || colour_count(cards, 1) % 2 != 0
                || colour_count(cards, 2) % 2 != 0 || colour_count(cards, 3) % 2 != 0
                || colour_count(cards, 4) % 2 != 0 || colour_count(cards, 5) % 2 != 0);
        }
    }
    Ok(valid)
}

/// Takes the set at the positions of the move. Each of its cards gives its
/// place to a card from the deck while the deck lasts, and leaves the play
/// area after that. A move with a position outside the play area, or of
/// cards that form no set, gives the game back unchanged, with the error.
pub fn attempt_move(g: Game, mve: &Move) -> (result: Result<Game, (Game, PlayError)>)
    ensures
        match result {
            Ok(game) => {
                &&& g@.holds(mve.positions())
                &&& forms_set(selected(g@.in_play, mve.positions()))
                &&& game@ == g@.after_serving(mve.positions())
            },
            Err((game, PlayError::InvalidMove)) => {
                &&& !g@.holds(mve.positions())
                &&& game@ == g@
            },
            Err((game, PlayError::NotASet)) => {
                &&& g@.holds(mve.positions())
                &&& !forms_set(selected(g@.in_play, mve.positions()))
                &&& game@ == g@
            },
        },
{
    match is_set(&g, mve) {
        Ok(true) => {},
        Ok(false) => {
            return Err((g, PlayError::NotASet));
        },
        Err(error) => {
            return Err((g, error));
        },
    }
    let ghost start = g@;
    let mut game = g;
    let positions = mve.get_positions();
    let n: usize = positions.len();
    let ghost all = mve.positions();
    let mut i: usize = 0;
    assert(all.skip(0) =~= all);
    while i < n
        invariant
            n == positions@.len(),
            all == indices(positions@),
            start == g@,
            i <= n,
            descending(all),
            forall|j: int| i <= j < all.len() ==> 0 <= #[trigger] all[j] < game@.in_play.len(),
            game@.after_serving(all.skip(i as int)) == start.after_serving(all),
        decreases n - i,
    {
        let index: usize = positions[i].get_index() as usize;
        assert(all[i as int] == index);
        let ghost now = game@;
        proof {
            assert(all.skip(i as int)[0] == index);
            assert(all.skip(i as int).drop_first() =~= all.skip(i + 1));
        }
        match game.deck.pop() {
            Some(card) => {
                game.in_play.set(index, card);
                assert(game.deck@ =~= now.deck.drop_last());
            },
            None => {
                game.in_play.remove(index);
            },
        }
        i += 1;
    }
    Ok(game)
}

/// Serving a move takes one card out of the game for each of its positions:
/// the deck gives as many cards as it has for them, and the play area loses a
/// place for each position that the deck has no card for.
pub proof fn serving_takes_a_card_for_each_position(v: GameView, positions: Seq<int>)
    requires
        v.holds(positions),
        descending(positions),
    ensures
        ({
            let after = v.after_serving(positions);
            let given = if positions.len() <= v.deck.len() {
                positions.len()
            } else {
                v.deck.len()
            };
            &&& after.deck == v.deck.take(v.deck.len() - given)
            &&& after.in_play.len() == v.in_play.len() - (positions.len() - given)
        }),
    decreases positions.len(),
{
    if positions.len() == 0 {
        assert(v.deck.take(v.deck.len() as int) =~= v.deck);
    } else {
        let p = positions[0];
        let rest = positions.drop_first();
        let next = if v.deck.len() > 0 {
            GameView { deck: v.deck.drop_last(), in_play: v.in_play.update(p, v.deck.last()) }
        } else {
            GameView { deck: v.deck, in_play: v.in_play.remove(p) }
        };
        assert forall|j: int| 0 <= j < rest.len() implies 0 <= #[trigger] rest[j]
            < next.in_play.len() by {
            assert(rest[j] == positions[j + 1]);
            assert(positions[0] > positions[j + 1]);
        }
        assert forall|i: int, j: int| 0 <= i < j < rest.len() implies rest[i] > rest[j] by {
            assert(rest[i] == positions[i + 1]);
            assert(rest[j] == positions[j + 1]);
        }
        serving_takes_a_card_for_each_position(next, rest);
        let after = v.after_serving(positions);
        let given = if positions.len() <= v.deck.len() {
            positions.len()
        } else {
            v.deck.len()
        };
        assert(after.deck =~= v.deck.take(v.deck.len() - given));
    }
}

} // verus!
