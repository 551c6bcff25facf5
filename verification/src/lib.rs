//! Terminal mini-games: the rules of each game, verified.
//!
//! The heart of the crate is the minesweeper engine in [`minesweeper`]: a
//! board generator that lays mines and counts each tile's mined
//! neighbours, and a reveal operation that cascades through the tiles
//! without mined neighbours. Beside it stand the rules of three word games,
//! [`wordle`], [`hangman`] and [`anagrams`], with what they share: the
//! commands in [`command`], the word lists in [`words`], the reading of
//! strings in [`text`], and the random source in [`random`].
//!
//! Nothing here prints, reads or sleeps. A game takes the player's line
//! and says what came of it; what to show is up to the caller.

pub mod anagrams;
pub mod command;
pub mod difficulty;
pub mod game;
pub mod hangman;
pub mod minesweeper;
pub mod random;
pub mod text;
pub mod wordle;
pub mod words;
