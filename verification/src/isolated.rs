//! A game whose cards carry the mark of the game that dealt them, so that a
//! card of one game cannot be played in another.

pub mod engine;
pub mod game;
mod moving;
