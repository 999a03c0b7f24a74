//! The projective variant: 63 cards, each a non-empty choice among six
//! colours, seven cards in play. Cards form a set when every colour is on an
//! even number of them.

pub mod cards;
pub mod game;
