//! Taking marked cards out of play and putting them in: marked cards cannot
//! be copied, so a card that leaves its place is handed on.

use crate::cards::Card;
use crate::isolated::engine::{faces, GameCard};
use crate::play_area::{dropped, filled, shrinking_step_by_step, shrunk};
use crate::search::Move;
use vstd::prelude::*;

verus! {

/// Taking an item out and putting one in at its place comes to replacing it.
proof fn lemma_remove_then_insert<T>(s: Seq<T>, i: int, x: T)
    requires
        0 <= i < s.len(),
    ensures
        s.remove(i).insert(i, x) == s.update(i, x),
{
    assert(s.remove(i).insert(i, x) =~= s.update(i, x));
}

/// Replacing an item below the one that is taken out can be done before or
/// after.
proof fn lemma_update_below_remove<T>(s: Seq<T>, i: int, j: int, x: T)
    requires
        0 <= i < j < s.len(),
    ensures
        s.remove(j).update(i, x) == s.update(i, x).remove(j),
{
    assert(s.remove(j).update(i, x) =~= s.update(i, x).remove(j));
}

/// Taking three items out, the highest first, and putting three in at the
/// same places, the lowest first, comes to replacing the three.
pub proof fn lemma_out_and_in<T>(s: Seq<T>, lo: int, mid: int, hi: int, a: T, b: T, c: T)
    requires
        0 <= lo < mid < hi < s.len(),
    ensures
        s.remove(hi).remove(mid).remove(lo).insert(lo, a).insert(mid, b).insert(hi, c)
            == s.update(lo, a).update(mid, b).update(hi, c),
{
    let s1 = s.remove(hi);
    let s2 = s1.remove(mid);
    lemma_remove_then_insert(s2, lo, a);
    lemma_update_below_remove(s1, lo, mid, a);
    let t1 = s1.update(lo, a);
    lemma_remove_then_insert(t1, mid, b);
    lemma_update_below_remove(s, lo, hi, a);
    let u1 = s.update(lo, a);
    lemma_update_below_remove(u1, mid, hi, b);
    let u2 = u1.update(mid, b);
    lemma_remove_then_insert(u2, hi, c);
}

/// The cards shown after a marked card left are those shown before, less
/// the one that it shows.
pub proof fn lemma_faces_remove<'a>(s: Seq<GameCard<'a>>, i: int)
    requires
        0 <= i < s.len(),
    ensures
        faces(s.remove(i)) == faces(s).remove(i),
{
    assert(faces(s.remove(i)) =~= faces(s).remove(i));
}

/// The cards shown after a marked card took a place show its card there.
pub proof fn lemma_faces_update<'a>(s: Seq<GameCard<'a>>, i: int, x: GameCard<'a>)
    requires
        0 <= i < s.len(),
    ensures
        faces(s.update(i, x)) == faces(s).update(i, x@),
{
    assert(faces(s.update(i, x)) =~= faces(s).update(i, x@));
}

/// Takes the cards at three positions out of play, the highest first.
pub(crate) fn take_out<'a>(
    in_play: &mut Vec<GameCard<'a>>,
    c1: usize,
    c2: usize,
    c3: usize,
) -> (cards: [GameCard<'a>; 3])
    requires
        c1 < c2 < c3 < old(in_play)@.len(),
    ensures
        final(in_play)@ == old(in_play)@.remove(c3 as int).remove(c2 as int).remove(c1 as int),
        cards@[0] == old(in_play)@[c1 as int],
        cards@[1] == old(in_play)@[c2 as int],
        cards@[2] == old(in_play)@[c3 as int],
{
    let card3 = in_play.remove(c3);
    let card2 = in_play.remove(c2);
    let card1 = in_play.remove(c1);
    [card1, card2, card3]
}

/// Whether the slot holds what it should after a card was looked for: the
/// card found, where it is the slot's own, and what it held before
/// otherwise.
pub open spec fn kept_or_taken<'a>(
    before: Option<GameCard<'a>>,
    after: Option<GameCard<'a>>,
    own: bool,
    face: Card,
) -> bool {
    if own {
        after matches Some(card) && card@ == face
    } else {
        after == before
    }
}

/// Takes the card at position `at` out of play if the move names it, and
/// keeps it in the slot of the position that names it.
fn drop_marked<'a>(
    in_play: &mut Vec<GameCard<'a>>,
    first: &mut Option<GameCard<'a>>,
    second: &mut Option<GameCard<'a>>,
    third: &mut Option<GameCard<'a>>,
    mve: &Move,
    at: usize,
)
    requires
        at < old(in_play)@.len(),
        mve.0 != mve.1 && mve.1 != mve.2 && mve.0 != mve.2,
    ensures
        faces(final(in_play)@) == dropped(faces(old(in_play)@), *mve, at as int),
        kept_or_taken(*old(first), *final(first), mve.0 == at, faces(old(in_play)@)[at as int]),
        kept_or_taken(*old(second), *final(second), mve.1 == at, faces(old(in_play)@)[at as int]),
        kept_or_taken(*old(third), *final(third), mve.2 == at, faces(old(in_play)@)[at as int]),
{
    if mve.0 == at || mve.1 == at || mve.2 == at {
        let card = in_play.remove(at);
        proof {
            lemma_faces_remove(old(in_play)@, at as int);
            assert(faces(old(in_play)@).remove(at as int) =~= dropped(
                faces(old(in_play)@),
                *mve,
                at as int,
            ));
        }
        if mve.0 == at {
            *first = Some(card);
        } else if mve.1 == at {
            *second = Some(card);
        } else {
            *third = Some(card);
        }
    } else {
        assert(faces(in_play@) =~= dropped(faces(old(in_play)@), *mve, at as int));
    }
}

/// Puts the last card in play at position `at` if that lies below `new_max`,
/// and hands on the card that was there.
fn fill_marked<'a>(in_play: &mut Vec<GameCard<'a>>, slot: &mut Option<GameCard<'a>>, at: usize, new_max: usize)
    requires
        at < new_max ==> new_max < old(in_play)@.len(),
    ensures
        faces(final(in_play)@) == filled(faces(old(in_play)@), at, new_max as int),
        kept_or_taken(*old(slot), *final(slot), at < new_max, faces(old(in_play)@)[at as int]),
{
    if at < new_max {
        let card = in_play.swap_remove(at);
        *slot = Some(card);
        assert(faces(in_play@) =~= filled(faces(old(in_play)@), at, new_max as int));
    }
}

/// Takes the three cards of the move out of play and moves as few of the
/// others as can be. The cards come in the order in which the move names
/// their positions.
pub(crate) fn take_out_crowded<'a>(in_play: &mut Vec<GameCard<'a>>, mve: &Move) -> (cards: [GameCard<
    'a,
>; 3])
    requires
        mve.fits(old(in_play)@.len() as int),
    ensures
        faces(final(in_play)@) == shrunk(faces(old(in_play)@), *mve),
        cards@[0]@ == faces(old(in_play)@)[mve.0 as int],
        cards@[1]@ == faces(old(in_play)@)[mve.1 as int],
        cards@[2]@ == faces(old(in_play)@)[mve.2 as int],
{
    let n: usize = in_play.len();
    let new_max: usize = n - 3;
    let mut first: Option<GameCard<'a>> = None;
    let mut second: Option<GameCard<'a>> = None;
    let mut third: Option<GameCard<'a>> = None;
    proof {
        shrinking_step_by_step(faces(in_play@), *mve);
    }
    drop_marked(in_play, &mut first, &mut second, &mut third, mve, n - 1);
    drop_marked(in_play, &mut first, &mut second, &mut third, mve, n - 2);
    drop_marked(in_play, &mut first, &mut second, &mut third, mve, new_max);
    fill_marked(in_play, &mut first, mve.0, new_max);
    fill_marked(in_play, &mut second, mve.1, new_max);
    fill_marked(in_play, &mut third, mve.2, new_max);
    [first.unwrap(), second.unwrap(), third.unwrap()]
}

} // verus!
