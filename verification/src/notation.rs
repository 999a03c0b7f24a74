//! The letters by which a player names positions and reads cards.
//!
//! The classic game lays the cards out in columns of three, and the keys of
//! a keyboard name the positions in that layout: `q`, `a`, `z` are the first
//! column, `w`, `s`, `x` the second, and so on to `u`, `j`, `m`.

use crate::cards::{Card, Colour, Number, Shading, Shape};
use crate::projective::game::{indices, CardPos};
use crate::search::Move;
use vstd::prelude::*;
use vstd::string::StringExecFns;

verus! {

/// The keys in the order of the positions that they name.
pub open spec fn keys() -> Seq<char> {
    seq![
        'q', 'a', 'z', 'w', 's', 'x', 'e', 'd', 'c', 'r', 'f', 'v', 't', 'g', 'b', 'y', 'h', 'n',
        'u', 'j', 'm',
    ]
}

/// The keys as capital letters.
pub open spec fn capital_keys() -> Seq<char> {
    seq![
        'Q', 'A', 'Z', 'W', 'S', 'X', 'E', 'D', 'C', 'R', 'F', 'V', 'T', 'G', 'B', 'Y', 'H', 'N',
        'U', 'J', 'M',
    ]
}

/// `letter` is the key of position `i`, small or capital.
pub open spec fn names_position(letter: char, i: int) -> bool {
    0 <= i < 21 && (letter == keys()[i] || letter == capital_keys()[i])
}

/// The position that the key `letter` names.
pub fn letter_to_index(letter: char) -> (result: Result<usize, ()>)
    ensures
        match result {
            Ok(i) => names_position(letter, i as int),
            Err(()) => forall|i: int| !names_position(letter, i),
        },
{
    match letter {
        'q' | 'Q' => Ok(0),
        'a' | 'A' => Ok(1),
        'z' | 'Z' => Ok(2),
        'w' | 'W' => Ok(3),
        's' | 'S' => Ok(4),
        'x' | 'X' => Ok(5),
        'e' | 'E' => Ok(6),
        'd' | 'D' => Ok(7),
        'c' | 'C' => Ok(8),
        'r' | 'R' => Ok(9),
        'f' | 'F' => Ok(10),
        'v' | 'V' => Ok(11),
        't' | 'T' => Ok(12),
        'g' | 'G' => Ok(13),
        'b' | 'B' => Ok(14),
        'y' | 'Y' => Ok(15),
        'h' | 'H' => Ok(16),
        'n' | 'N' => Ok(17),
        'u' | 'U' => Ok(18),
        'j' | 'J' => Ok(19),
        'm' | 'M' => Ok(20),
        _ => Err(()),
    }
}

/// The four letters that stand for a card: its number, then the first
/// letters of its shape, its shading and its colour.
pub open spec fn card_letters(card: Card) -> Seq<char> {
    seq![
        match card.number {
            Number::One => '1',
            Number::Two => '2',
            Number::Three => '3',
        },
        match card.shape {
            Shape::Oval => 'O',
            Shape::Wave => 'W',
            Shape::Diamond => 'D',
        },
        match card.shading {
            Shading::Empty => 'E',
            Shading::Half => 'H',
            Shading::Full => 'F',
        },
        match card.colour {
            Colour::Red => 'R',
            Colour::Green => 'G',
            Colour::Purple => 'P',
        },
    ]
}

pub fn card_string(c: &Card) -> (out: String)
    ensures
        out@ == card_letters(*c),
{
    proof {
        reveal_strlit("1");
        reveal_strlit("2");
        reveal_strlit("3");
        reveal_strlit("O");
        reveal_strlit("W");
        reveal_strlit("D");
        reveal_strlit("E");
        reveal_strlit("H");
        reveal_strlit("F");
        reveal_strlit("R");
        reveal_strlit("G");
        reveal_strlit("P");
    }
    let mut out = String::new();
    match c.number {
        Number::One => out.append("1"),
        Number::Two => out.append("2"),
        Number::Three => out.append("3"),
    }
    match c.shape {
        Shape::Oval => out.append("O"),
        Shape::Wave => out.append("W"),
        Shape::Diamond => out.append("D"),
    }
    match c.shading {
        Shading::Empty => out.append("E"),
        Shading::Half => out.append("H"),
        Shading::Full => out.append("F"),
    }
    match c.colour {
        Colour::Red => out.append("R"),
        Colour::Green => out.append("G"),
        Colour::Purple => out.append("P"),
    }
    assert(out@ =~= card_letters(*c));
    out
}

/// What a player of the classic game asks for.
#[derive(Clone, Copy, Debug, PartialEq, Eq, Structural)]
pub enum Choice {
    /// Three more cards.
    Draw3,
    /// The sets among the cards in play.
    Cheat,
    /// The set at three positions.
    Move(Move),
}

#[derive(Clone, Copy, Debug, PartialEq, Eq, Structural)]
pub enum ChoiceError {
    /// One of the first three letters is no key.
    NotUnderstood,
    /// There are fewer than three letters.
    TooFewCards,
}

/// The line begins with the letter, small or capital.
pub open spec fn begins_with(line: Seq<char>, small: char, capital: char) -> bool {
    line.len() > 0 && (line[0] == small || line[0] == capital)
}

/// The letter at place `j` of the line is a key.
pub open spec fn is_key(line: Seq<char>, j: int) -> bool {
    exists|i: int| names_position(line[j], i)
}

/// What a line of input asks for: `p` for three more cards, `l` for the sets
/// in play, else the keys of three positions.
pub fn read_choice(line: &[char]) -> (result: Result<Choice, ChoiceError>)
    ensures
        match result {
            Ok(Choice::Draw3) => begins_with(line@, 'p', 'P'),
            Ok(Choice::Cheat) => begins_with(line@, 'l', 'L'),
            Ok(Choice::Move(mve)) => {
                &&& !begins_with(line@, 'p', 'P') && !begins_with(line@, 'l', 'L')
                &&& line@.len() >= 3
                &&& names_position(line@[0], mve.0 as int)
                &&& names_position(line@[1], mve.1 as int)
                &&& names_position(line@[2], mve.2 as int)
            },
            Err(ChoiceError::NotUnderstood) => {
                &&& !begins_with(line@, 'p', 'P') && !begins_with(line@, 'l', 'L')
                &&& exists|j: int| 0 <= j < 3 && j < line@.len() && !is_key(line@, j)
            },
            Err(ChoiceError::TooFewCards) => {
                &&& !begins_with(line@, 'p', 'P') && !begins_with(line@, 'l', 'L')
                &&& line@.len() < 3
                &&& forall|j: int| 0 <= j < line@.len() ==> is_key(line@, j)
            },
        },
{
    let n: usize = line.len();
    if n > 0 && (line[0] == 'p' || line[0] == 'P') {
        return Ok(Choice::Draw3);
    }
    if n > 0 && (line[0] == 'l' || line[0] == 'L') {
        return Ok(Choice::Cheat);
    }
    let mut found: Vec<usize> = Vec::new();
    let mut j: usize = 0;
    while j < 3 && j < n
        invariant
            n == line@.len(),
            j <= 3,
            j <= n,
            found@.len() == j,
            !begins_with(line@, 'p', 'P') && !begins_with(line@, 'l', 'L'),
            forall|k: int| 0 <= k < j ==> names_position(line@[k], #[trigger] found@[k] as int),
        decreases 3 - j,
    {
        match letter_to_index(line[j]) {
            Ok(i) => {
                found.push(i);
            },
            Err(()) => {
                assert(!is_key(line@, j as int));
                return Err(ChoiceError::NotUnderstood);
            },
        }
        j += 1;
    }
    if found.len() != 3 {
        assert forall|k: int| 0 <= k < line@.len() implies is_key(line@, k) by {
            assert(names_position(line@[k], found@[k] as int));
        }
        return Err(ChoiceError::TooFewCards);
    }
    Ok(Choice::Move(Move(found[0], found[1], found[2])))
}

/// The position of the projective game that a digit from 1 to 7 names.
pub fn digit_to_position(digit: char) -> (position: Option<CardPos>)
    ensures
        match position {
            Some(pos) => '1' <= digit <= '7' && pos.index() == digit as int - '1' as int,
            None => !('1' <= digit <= '7'),
        },
{
    let index: u8 = match digit {
        '1' => 0,
        '2' => 1,
        '3' => 2,
        '4' => 3,
        '5' => 4,
        '6' => 5,
        '7' => 6,
        _ => {
            return None;
        },
    };
    match CardPos::build(index) {
        Ok(pos) => Some(pos),
        Err(_) => None,
    }
}

/// The positions of the projective game that a line of digits names, in the
/// order of the digits, where every letter of the line is a digit from 1 to
/// 7.
pub fn read_positions(line: &[char]) -> (positions: Option<Vec<CardPos>>)
    ensures
        match positions {
            Some(v) => {
                &&& v@.len() == line@.len()
                &&& forall|j: int|
                    0 <= j < line@.len() ==> '1' <= #[trigger] line@[j] <= '7' && indices(v@)[j]
                        == line@[j] as int - '1' as int
            },
            None => exists|j: int| 0 <= j < line@.len() && !('1' <= #[trigger] line@[j] <= '7'),
        },
{
    let n: usize = line.len();
    let mut v: Vec<CardPos> = Vec::new();
    let mut j: usize = 0;
    while j < n
        invariant
            n == line@.len(),
            j <= n,
            v@.len() == j,
            forall|k: int|
                0 <= k < j ==> '1' <= #[trigger] line@[k] <= '7' && indices(v@)[k] == line@[k] as int
                    - '1' as int,
        decreases n - j,
    {
        match digit_to_position(line[j]) {
            Some(pos) => {
                v.push(pos);
            },
            None => {
                return None;
            },
        }
        j += 1;
    }
    Some(v)
}

} // verus!
