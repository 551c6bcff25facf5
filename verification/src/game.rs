//! What the games share: the codes that a round hands back to the loop
//! that runs it, and the arguments that a game is started with.

use vstd::prelude::*;
use crate::difficulty::Difficulty;

verus! {

/// The round goes on.
pub const GAME_ONGOING: i32 = 31;

/// The round is over and a new one is asked for.
pub const GAME_RESTART: i32 = 32;

/// The round is over.
pub const GAME_OVER: i32 = 33;

/// The games.
#[derive(Clone, Copy, Debug, PartialEq, Eq, Structural)]
pub enum Mints {
    Wordle,
    Hangman,
    Anagrams,
    Minesweeper,
}

/// The arguments that a game is started with.
#[derive(Clone, Copy, Debug, PartialEq, Eq, Structural)]
pub struct Args {
    pub game: Mints,
    pub guesses: Option<i32>,
    pub letters: Option<i32>,
    pub timer: Option<i32>,
    pub difficulty: Option<Difficulty>,
}

/// The difficulty that `args` ask for, or `Easy` where they ask for none.
pub open spec fn difficulty_or_easy(args: Args) -> Difficulty {
    match args.difficulty {
        Some(difficulty) => difficulty,
        None => Difficulty::Easy,
    }
}

} // verus!
