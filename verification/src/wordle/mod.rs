//! Wordle: a round with its guesses, and how a guess is marked against the
//! answer.

pub mod display;
pub mod round;
