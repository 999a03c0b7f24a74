//! The card game Set: the classic deck of 81 cards with four three-valued
//! attributes, and the projective variant with 63 cards over six colours.

pub mod analysis;
pub mod cards;
pub mod deck;
pub mod game;
pub mod isolated;
pub mod notation;
pub mod play_area;
pub mod projective;
pub mod search;
