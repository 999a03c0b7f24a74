//! The classic card: four attributes with three values each, the rule that
//! decides whether three cards form a set, and the card that completes a set
//! with two given cards.

use vstd::prelude::*;

verus! {

/// One of the three values of an attribute, whichever attribute it is.
#[derive(Clone, Copy, Debug, PartialEq, Eq, Hash, Structural)]
pub enum AbstractOption {
    A,
    B,
    C,
}

#[derive(Clone, Copy, Debug, PartialEq, Eq, Hash, Structural)]
pub enum Number {
    One,
    Two,
    Three,
}

#[derive(Clone, Copy, Debug, PartialEq, Eq, Hash, Structural)]
pub enum Shape {
    Oval,
    Wave,
    Diamond,
}

#[derive(Clone, Copy, Debug, PartialEq, Eq, Hash, Structural)]
pub enum Shading {
    Empty,
    Half,
    Full,
}

#[derive(Clone, Copy, Debug, PartialEq, Eq, Hash, Structural)]
pub enum Colour {
    Red,
    Green,
    Purple,
}

#[derive(Clone, Copy, Debug, PartialEq, Eq, Hash, Structural)]
pub struct Card {
    pub number: Number,
    pub shape: Shape,
    pub shading: Shading,
    pub colour: Colour,
}

/// Three values of one attribute agree when they are all the same or all
/// different from each other.
pub open spec fn all_same_or_all_different<T>(a: T, b: T, c: T) -> bool {
    (a == b && b == c) || (a != b && b != c && c != a)
}

/// The value that agrees with `a1` and `a2`: the shared one when they are
/// equal, the remaining one when they differ.
pub open spec fn completing_option(a1: AbstractOption, a2: AbstractOption) -> AbstractOption {
    if a1 == a2 {
        a1
    } else if a1 != AbstractOption::A && a2 != AbstractOption::A {
        AbstractOption::A
    } else if a1 != AbstractOption::B && a2 != AbstractOption::B {
        AbstractOption::B
    } else {
        AbstractOption::C
    }
}

impl AbstractOption {
    /// The place of the value among the three: 0, 1 or 2.
    pub open spec fn ordinal(self) -> int {
        match self {
            AbstractOption::A => 0,
            AbstractOption::B => 1,
            AbstractOption::C => 2,
        }
    }

    /// The value at place `k`, for `k` in 0, 1, 2.
    pub open spec fn at(k: int) -> AbstractOption {
        if k == 0 {
            AbstractOption::A
        } else if k == 1 {
            AbstractOption::B
        } else {
            AbstractOption::C
        }
    }
}

/// The value that is all the same as, or all different from, two given
/// ones.
pub fn opt_completion(a1: AbstractOption, a2: AbstractOption) -> (a3: AbstractOption)
    ensures
        a3 == completing_option(a1, a2),
        all_same_or_all_different(a1, a2, a3),
{
    match (a1, a2) {
        (AbstractOption::A, AbstractOption::A) => AbstractOption::A,
        (AbstractOption::A, AbstractOption::B) => AbstractOption::C,
        (AbstractOption::A, AbstractOption::C) => AbstractOption::B,
        (AbstractOption::B, AbstractOption::A) => AbstractOption::C,
        (AbstractOption::B, AbstractOption::B) => AbstractOption::B,
        (AbstractOption::B, AbstractOption::C) => AbstractOption::A,
        (AbstractOption::C, AbstractOption::A) => AbstractOption::B,
        (AbstractOption::C, AbstractOption::B) => AbstractOption::A,
        (AbstractOption::C, AbstractOption::C) => AbstractOption::C,
    }
}

impl Number {
    /// Which of the three values the number is.
    pub open spec fn option(self) -> AbstractOption {
        match self {
            Number::One => AbstractOption::A,
            Number::Two => AbstractOption::B,
            Number::Three => AbstractOption::C,
        }
    }

    /// The number that is the given one of the three values.
    pub open spec fn of(a: AbstractOption) -> Number {
        match a {
            AbstractOption::A => Number::One,
            AbstractOption::B => Number::Two,
            AbstractOption::C => Number::Three,
        }
    }

    pub fn to_abstract_option(&self) -> (a: AbstractOption)
        ensures
            a == self.option(),
    {
        match self {
            Number::One => AbstractOption::A,
            Number::Two => AbstractOption::B,
            Number::Three => AbstractOption::C,
        }
    }

    pub fn from_abstract_option(a: AbstractOption) -> (v: Number)
        ensures
            v == Number::of(a),
            v.option() == a,
    {
        match a {
            AbstractOption::A => Number::One,
            AbstractOption::B => Number::Two,
            AbstractOption::C => Number::Three,
        }
    }

    /// The number that is all the same as, or all different from, two given
    /// ones.
    pub fn to_complete(v1: &Number, v2: &Number) -> (v3: Number)
        ensures
            v3 == Number::of(completing_option(v1.option(), v2.option())),
            all_same_or_all_different(*v1, *v2, v3),
    {
        Number::from_abstract_option(
            opt_completion(v1.to_abstract_option(), v2.to_abstract_option()),
        )
    }
}

impl Shape {
    /// Which of the three values the shape is.
    pub open spec fn option(self) -> AbstractOption {
        match self {
            Shape::Oval => AbstractOption::A,
            Shape::Wave => AbstractOption::B,
            Shape::Diamond => AbstractOption::C,
        }
    }

    /// The shape that is the given one of the three values.
    pub open spec fn of(a: AbstractOption) -> Shape {
        match a {
            AbstractOption::A => Shape::Oval,
            AbstractOption::B => Shape::Wave,
            AbstractOption::C => Shape::Diamond,
        }
    }

    pub fn to_abstract_option(&self) -> (a: AbstractOption)
        ensures
            a == self.option(),
    {
        match self {
            Shape::Oval => AbstractOption::A,
            Shape::Wave => AbstractOption::B,
            Shape::Diamond => AbstractOption::C,
        }
    }

    pub fn from_abstract_option(a: AbstractOption) -> (v: Shape)
        ensures
            v == Shape::of(a),
            v.option() == a,
    {
        match a {
            AbstractOption::A => Shape::Oval,
            AbstractOption::B => Shape::Wave,
            AbstractOption::C => Shape::Diamond,
        }
    }

    /// The shape that is all the same as, or all different from, two given
    /// ones.
    pub fn to_complete(v1: &Shape, v2: &Shape) -> (v3: Shape)
        ensures
            v3 == Shape::of(completing_option(v1.option(), v2.option())),
            all_same_or_all_different(*v1, *v2, v3),
    {
        Shape::from_abstract_option(
            opt_completion(v1.to_abstract_option(), v2.to_abstract_option()),
        )
    }
}

impl Shading {
    /// Which of the three values the shading is.
    pub open spec fn option(self) -> AbstractOption {
        match self {
            Shading::Empty => AbstractOption::A,
            Shading::Half => AbstractOption::B,
            Shading::Full => AbstractOption::C,
        }
    }

    /// The shading that is the given one of the three values.
    pub open spec fn of(a: AbstractOption) -> Shading {
        match a {
            AbstractOption::A => Shading::Empty,
            AbstractOption::B => Shading::Half,
            AbstractOption::C => Shading::Full,
        }
    }

    pub fn to_abstract_option(&self) -> (a: AbstractOption)
        ensures
            a == self.option(),
    {
        match self {
            Shading::Empty => AbstractOption::A,
            Shading::Half => AbstractOption::B,
            Shading::Full => AbstractOption::C,
        }
    }

    pub fn from_abstract_option(a: AbstractOption) -> (v: Shading)
        ensures
            v == Shading::of(a),
            v.option() == a,
    {
        match a {
            AbstractOption::A => Shading::Empty,
            AbstractOption::B => Shading::Half,
            AbstractOption::C => Shading::Full,
        }
    }

    /// The shading that is all the same as, or all different from, two given
    /// ones.
    pub fn to_complete(v1: &Shading, v2: &Shading) -> (v3: Shading)
        ensures
            v3 == Shading::of(completing_option(v1.option(), v2.option())),
            all_same_or_all_different(*v1, *v2, v3),
    {
        Shading::from_abstract_option(
            opt_completion(v1.to_abstract_option(), v2.to_abstract_option()),
        )
    }
}

impl Colour {
    /// Which of the three values the colour is.
    pub open spec fn option(self) -> AbstractOption {
        match self {
            Colour::Red => AbstractOption::A,
            Colour::Green => AbstractOption::B,
            Colour::Purple => AbstractOption::C,
        }
    }

    /// The colour that is the given one of the three values.
    pub open spec fn of(a: AbstractOption) -> Colour {
        match a {
            AbstractOption::A => Colour::Red,
            AbstractOption::B => Colour::Green,
            AbstractOption::C => Colour::Purple,
        }
    }

    pub fn to_abstract_option(&self) -> (a: AbstractOption)
        ensures
            a == self.option(),
    {
        match self {
            Colour::Red => AbstractOption::A,
            Colour::Green => AbstractOption::B,
            Colour::Purple => AbstractOption::C,
        }
    }

    pub fn from_abstract_option(a: AbstractOption) -> (v: Colour)
        ensures
            v == Colour::of(a),
            v.option() == a,
    {
        match a {
            AbstractOption::A => Colour::Red,
            AbstractOption::B => Colour::Green,
            AbstractOption::C => Colour::Purple,
        }
    }

    /// The colour that is all the same as, or all different from, two given
    /// ones.
    pub fn to_complete(v1: &Colour, v2: &Colour) -> (v3: Colour)
        ensures
            v3 == Colour::of(completing_option(v1.option(), v2.option())),
            all_same_or_all_different(*v1, *v2, v3),
    {
        Colour::from_abstract_option(
            opt_completion(v1.to_abstract_option(), v2.to_abstract_option()),
        )
    }
}

/// Three cards form a set when no card is repeated and each of the four
/// attributes is all the same or all different over the three cards.
pub open spec fn forms_set(a: Card, b: Card, c: Card) -> bool {
    &&& a != b && b != c && c != a
    &&& all_same_or_all_different(a.number, b.number, c.number)
    &&& all_same_or_all_different(a.shape, b.shape, c.shape)
    &&& all_same_or_all_different(a.shading, b.shading, c.shading)
    &&& all_same_or_all_different(a.colour, b.colour, c.colour)
}

/// The card that agrees with `a` and `b` in every attribute.
pub open spec fn completing_card(a: Card, b: Card) -> Card {
    Card {
        number: Number::of(completing_option(a.number.option(), b.number.option())),
        shape: Shape::of(completing_option(a.shape.option(), b.shape.option())),
        shading: Shading::of(completing_option(a.shading.option(), b.shading.option())),
        colour: Colour::of(completing_option(a.colour.option(), b.colour.option())),
    }
}

impl Card {
    /// The card's place in the canonical order, in which the number varies
    /// slowest and the colour fastest.
    pub open spec fn index(self) -> int {
        27 * self.number.option().ordinal() + 9 * self.shape.option().ordinal() + 3
            * self.shading.option().ordinal() + self.colour.option().ordinal()
    }

    /// The card at place `i` of the canonical order, for `0 <= i < 81`.
    pub open spec fn at(i: int) -> Card {
        Card {
            number: Number::of(AbstractOption::at(i / 27)),
            shape: Shape::of(AbstractOption::at((i / 9) % 3)),
            shading: Shading::of(AbstractOption::at((i / 3) % 3)),
            colour: Colour::of(AbstractOption::at(i % 3)),
        }
    }

    pub fn new(number: Number, shape: Shape, shading: Shading, colour: Colour) -> (card: Card)
        ensures
            card == (Card { number, shape, shading, colour }),
    {
        Card { number, shape, shading, colour }
    }

    pub fn get_number(&self) -> (number: Number)
        ensures
            number == self.number,
    {
        self.number
    }

    pub fn get_shape(&self) -> (shape: Shape)
        ensures
            shape == self.shape,
    {
        self.shape
    }

    pub fn get_shading(&self) -> (shading: Shading)
        ensures
            shading == self.shading,
    {
        self.shading
    }

    pub fn get_colour(&self) -> (colour: Colour)
        ensures
            colour == self.colour,
    {
        self.colour
    }

    /// The card's place in the canonical order, from 0 to 80.
    pub fn to_int(&self) -> (i: u8)
        ensures
            i == self.index(),
            i < 81,
            Card::at(i as int) == *self,
    {
        let number: u8 = match self.number {
            Number::One => 0,
            Number::Two => 27,
            Number::Three => 54,
        };
        let shape: u8 = match self.shape {
            Shape::Oval => 0,
            Shape::Wave => 9,
            Shape::Diamond => 18,
        };
        let shading: u8 = match self.shading {
            Shading::Empty => 0,
            Shading::Half => 3,
            Shading::Full => 6,
        };
        let colour: u8 = match self.colour {
            Colour::Red => 0,
            Colour::Green => 1,
            Colour::Purple => 2,
        };
        number + shape + shading + colour
    }
}

/// The card that completes a set with two given cards.
pub fn third_card(c1: &Card, c2: &Card) -> (c3: Card)
    ensures
        c3 == completing_card(*c1, *c2),
        *c1 != *c2 ==> forms_set(*c1, *c2, c3),
{
    Card::new(
        Number::to_complete(&c1.number, &c2.number),
        Shape::to_complete(&c1.shape, &c2.shape),
        Shading::to_complete(&c1.shading, &c2.shading),
        Colour::to_complete(&c1.colour, &c2.colour),
    )
}

/// Whether three cards form a set.
pub fn is_set(card1: &Card, card2: &Card, card3: &Card) -> (valid: bool)
    ensures
        valid == forms_set(*card1, *card2, *card3),
{
    (*card1 != *card2) && ((card1.number == card2.number && card2.number == card3.number) || (
    card1.number != card2.number && card2.number != card3.number && card3.number != card1.number))
        && ((card1.shape == card2.shape && card2.shape == card3.shape) || (card1.shape
        != card2.shape && card2.shape != card3.shape && card3.shape != card1.shape)) && ((
    card1.shading == card2.shading && card2.shading == card3.shading) || (card1.shading
        != card2.shading && card2.shading != card3.shading && card3.shading != card1.shading)) && ((
    card1.colour == card2.colour && card2.colour == card3.colour) || (card1.colour != card2.colour
        && card2.colour != card3.colour && card3.colour != card1.colour))
}

/// Whether three cards form a set does not depend on the order in which they
/// are given.
pub proof fn forms_set_in_any_order(a: Card, b: Card, c: Card)
    ensures
        forms_set(a, b, c) == forms_set(a, c, b),
        forms_set(a, b, c) == forms_set(b, a, c),
        forms_set(a, b, c) == forms_set(b, c, a),
        forms_set(a, b, c) == forms_set(c, a, b),
        forms_set(a, b, c) == forms_set(c, b, a),
{
}

/// Two distinct cards are completed to a set by exactly one card, and
/// `completing_card` is that card.
pub proof fn completing_card_is_the_only_third(a: Card, b: Card, c: Card)
    requires
        a != b,
    ensures
        forms_set(a, b, c) <==> c == completing_card(a, b),
{
}

/// The canonical order numbers the 81 cards from 0 to 80: `index` and `at`
/// undo each other.
pub proof fn index_and_at_are_inverse(card: Card, i: int)
    ensures
        0 <= card.index() < 81,
        Card::at(card.index()) == card,
        0 <= i < 81 ==> Card::at(i).index() == i,
{
    if 0 <= i < 81 {
        let number = i / 27;
        let shape = (i / 9) % 3;
        let shading = (i / 3) % 3;
        let colour = i % 3;
        assert(0 <= number < 3);
        assert(i / 9 == 3 * number + shape);
        assert(i / 3 == 3 * (i / 9) + shading);
        assert(i == 3 * (i / 3) + colour);
        assert(AbstractOption::at(number).ordinal() == number);
        assert(AbstractOption::at(shape).ordinal() == shape);
        assert(AbstractOption::at(shading).ordinal() == shading);
        assert(AbstractOption::at(colour).ordinal() == colour);
    }
}

} // verus!
