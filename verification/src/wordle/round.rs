//! A round of wordle.

use vstd::prelude::*;
use std::collections::HashMap;
use crate::difficulty::Difficulty;
use crate::game::{difficulty_or_easy, Args};
use crate::random::RandomSource;
use crate::command::{command_of, is_command, read_command, Command};
use crate::text::{
    byte_len, contains_text, lower_word, lowered, occurs_in, raise_word, raised, to_chars, to_text,
};
use crate::words::{known_in, word_exists};
use crate::wordle::display::DisplayType;

verus! {

broadcast use vstd::std_specs::hash::group_hash_axioms;

/// The number of guesses of a round that asks for none, or for one out of range.
pub const DEFAULT_GUESS_SIZE: i32 = 6;

/// The word length of a round that asks for none, or for one out of range.
pub const DEFAULT_WORD_SIZE: i32 = 5;

/// A round of wordle.
pub struct Wordle {
    pub turn: i32,
    pub words: Vec<String>,
    pub guesses: HashMap<i32, Option<String>>,
    pub answer: String,
    pub max_guesses: i32,
    pub max_letters: i32,
    pub difficulty: Difficulty,
}

/// Whether a round may have `guesses` guesses.
pub open spec fn guesses_in_range(guesses: i32) -> bool {
    3 <= guesses <= 9
}

/// Whether a round may play words of `letters` letters.
pub open spec fn letters_in_range(letters: i32) -> bool {
    4 <= letters <= 8
}

/// The number of guesses that a round started with `args` has.
pub open spec fn guesses_of(args: Args) -> i32 {
    match args.guesses {
        Some(guesses) if guesses_in_range(guesses) => guesses,
        _ => DEFAULT_GUESS_SIZE,
    }
}

/// The word length that a round started with `args` plays.
pub open spec fn letters_of(args: Args) -> i32 {
    match args.letters {
        Some(letters) if letters_in_range(letters) => letters,
        _ => DEFAULT_WORD_SIZE,
    }
}

/// The guesses of a round before the first one: none at each of the turns.
pub open spec fn no_guesses(max_guesses: i32) -> Map<i32, Option<String>> {
    Map::new(|turn: i32| 0 <= turn < max_guesses, |turn: i32| None::<String>)
}

/// What a line of input was played as.
#[derive(Clone, Copy, Debug, PartialEq, Eq, Structural)]
pub enum Tried {
    /// The line was a command; the round is as it was.
    Command(Command),
    /// The line has not the length of the round's words; nothing changed.
    WrongLength,
    /// The line is no word of the dictionary; nothing changed.
    NotAWord,
    /// The line occurs in an earlier guess; nothing changed.
    Repeated,
    /// The line was recorded as a guess, and led to this screen.
    Guessed(DisplayType),
}

impl Wordle {
    /// The guesses are guesses of the round's turns.
    pub open spec fn ready(&self) -> bool {
        forall|turn: i32| #[trigger] self.guesses@.contains_key(turn) ==> 0 <= turn < self.max_guesses
    }

    /// Whether `guess` occurs in the guess made at the turn `turn`.
    pub open spec fn guessed_at(&self, turn: i32, guess: Seq<char>) -> bool {
        self.guesses@.contains_key(turn) && (self.guesses@[turn] matches Some(earlier) && occurs_in(
            guess,
            earlier@,
        ))
    }

    /// Whether `guess` occurs in an earlier guess.
    pub open spec fn guessed_before(&self, guess: Seq<char>) -> bool {
        exists|turn: i32| #[trigger] self.guessed_at(turn, guess)
    }

    /// What the line `line` is played as, with the word lists `dictionary`
    /// to guess from: in capitals, as a command if it starts with `!`, read
    /// in lower case, and as a guess otherwise.
    pub open spec fn tried_of(&self, line: Seq<char>, dictionary: Seq<Vec<String>>) -> Tried {
        let shout = raise_word(line);
        if shout.len() > 0 && shout[0] == '!' {
            Tried::Command(command_of(lower_word(shout)))
        } else if byte_len(shout) != self.max_letters as usize {
            Tried::WrongLength
        } else if !known_in(dictionary, shout) {
            Tried::NotAWord
        } else if self.guessed_before(shout) {
            Tried::Repeated
        } else {
            Tried::Guessed(self.verdict(shout))
        }
    }

    /// Whether this round is `before` after the guess `guess` was
    /// recorded.
    pub open spec fn follows(&self, before: &Wordle, guess: Seq<char>) -> bool {
        &&& self.turn == before.turn + 1
        &&& self.guesses@.dom() == before.guesses@.dom().insert(before.turn)
        &&& forall|turn: i32|
            before.guesses@.contains_key(turn) && turn != before.turn ==> #[trigger] self.guesses@[turn]
                == before.guesses@[turn]
        &&& self.guesses@[before.turn] matches Some(recorded) && recorded@ == guess
        &&& self.words == before.words
        &&& self.answer == before.answer
        &&& self.max_guesses == before.max_guesses
        &&& self.max_letters == before.max_letters
        &&& self.difficulty == before.difficulty
    }

    /// What a guess of `guess` at this point of the round leads to.
    pub open spec fn verdict(&self, guess: Seq<char>) -> DisplayType {
        if occurs_in(guess, self.answer@) {
            DisplayType::Victory
        } else if self.turn + 1 == self.max_guesses {
            DisplayType::Failure
        } else {
            DisplayType::GameBoard
        }
    }

    /// Starts a round on the word list `words`, with one of its words as
    /// the answer. The list holds a word at least.
    pub fn new(args: Args, words: Vec<String>, rng: &mut RandomSource) -> (game: Wordle)
        requires
            words@.len() > 0,
        ensures
            game.turn == 0,
            game.words == words,
            game.guesses@ == no_guesses(guesses_of(args)),
            exists|i: int| 0 <= i < words@.len() && words@[i] == game.answer,
            game.max_guesses == guesses_of(args),
            game.max_letters == letters_of(args),
            game.difficulty == difficulty_or_easy(args),
    {
        let mut args = args;
        Wordle::parse_args(&mut args);
        let max_guesses: i32 = match args.guesses {
            Some(guesses) => guesses,
            None => DEFAULT_GUESS_SIZE,
        };
        let max_letters: i32 = match args.letters {
            Some(letters) => letters,
            None => DEFAULT_WORD_SIZE,
        };
        let difficulty = match args.difficulty {
            Some(difficulty) => difficulty,
            None => Difficulty::Easy,
        };
        let mut map: HashMap<i32, Option<String>> = HashMap::new();
        let mut i: i32 = 0;
        while i < max_guesses
            invariant
                0 <= i <= max_guesses,
                map@ == no_guesses(i),
            decreases max_guesses - i,
        {
            map.insert(i, None);
            assert(map@ =~= no_guesses((i + 1) as i32));
            i += 1;
        }
        let answer = match rng.pick(&words) {
            Some(word) => word.clone(),
            None => {
                proof {
                    assert(false);
                }
                String::new()
            },
        };
        Wordle { turn: 0, answer, guesses: map, words, max_guesses, max_letters, difficulty }
    }

    /// Whether `args` ask for a number of guesses that no round has.
    pub fn refuses_guesses(args: &Args) -> (refused: bool)
        ensures
            refused == (args.guesses matches Some(guesses) && !guesses_in_range(guesses)),
    {
        match args.guesses {
            Some(guesses) => guesses < 3 || guesses > 9,
            None => false,
        }
    }

    /// Whether `args` ask for a word length that no round plays.
    pub fn refuses_letters(args: &Args) -> (refused: bool)
        ensures
            refused == (args.letters matches Some(letters) && !letters_in_range(letters)),
    {
        match args.letters {
            Some(letters) => letters < 4 || letters > 8,
            None => false,
        }
    }

    /// Fills in what `args` leave open and replaces what is out of range:
    /// 6 guesses unless 3 to 9 are asked for, 5 letters unless 4 to 8 are
    /// asked for, and the difficulty `Easy` unless one is asked for.
    pub fn parse_args(args: &mut Args)
        ensures
            *final(args) == (Args {
                guesses: Some(guesses_of(*old(args))),
                letters: Some(letters_of(*old(args))),
                difficulty: Some(difficulty_or_easy(*old(args))),
                ..*old(args)
            }),
    {
        if args.guesses.is_none() || Wordle::refuses_guesses(args) {
            args.guesses = Some(DEFAULT_GUESS_SIZE);
        }
        if args.letters.is_none() || Wordle::refuses_letters(args) {
            args.letters = Some(DEFAULT_WORD_SIZE);
        }
        if args.difficulty.is_none() {
            args.difficulty = Some(Difficulty::Easy);
        }
    }

    /// Records `guess` as the guess of this turn and goes on to the next
    /// turn. The round is won if the guess occurs in the answer, lost if it
    /// was the last guess, and goes on otherwise.
    pub fn guess(&mut self, guess: &String) -> (shown: DisplayType)
        requires
            old(self).turn < i32::MAX,
        ensures
            shown == old(self).verdict(guess@),
            final(self).follows(old(self), guess@),
    {
        self.guesses.insert(self.turn, Some(guess.clone()));
        self.turn += 1;
        if contains_text(&self.answer, guess) {
            DisplayType::Victory
        } else if self.turn == self.max_guesses {
            DisplayType::Failure
        } else {
            DisplayType::GameBoard
        }
    }

    /// Whether `guess` occurs in an earlier guess.
    pub fn was_guessed(&self, guess: &String) -> (before: bool)
        requires
            self.ready(),
        ensures
            before == self.guessed_before(guess@),
    {
        let mut turn: i32 = 0;
        while turn < self.max_guesses
            invariant
                0 <= turn,
                turn <= self.max_guesses || self.max_guesses < 0,
                forall|earlier: i32| 0 <= earlier < turn ==> !#[trigger] self.guessed_at(earlier, guess@),
            decreases self.max_guesses - turn,
        {
            match self.guesses.get(&turn) {
                Some(Some(earlier)) => {
                    if contains_text(earlier, guess) {
                        assert(self.guessed_at(turn, guess@));
                        return true;
                    }
                },
                _ => {},
            }
            assert(!self.guessed_at(turn, guess@));
            turn += 1;
        }
        assert forall|earlier: i32| !#[trigger] self.guessed_at(earlier, guess@) by {
            if self.guesses@.contains_key(earlier) {
                assert(0 <= earlier < turn);
            }
        }
        false
    }

    /// Plays the line `line` in capitals, with the word lists `dictionary`
    /// to guess from.
    ///
    /// A line that starts with `!` is a command, read in lower case. Any
    /// other line is a guess. It changes nothing unless it has the length
    /// of the round's words, is a word of one of the lists, and occurs in no
    /// earlier guess; then it is recorded as the guess of this turn.
    pub fn play(&mut self, line: &str, dictionary: &Vec<Vec<String>>) -> (tried: Tried)
        requires
            old(self).ready(),
            old(self).turn < i32::MAX,
        ensures
            tried == old(self).tried_of(line@, dictionary@),
            match tried {
                Tried::Guessed(_) => final(self).follows(old(self), raise_word(line@)),
                _ => *final(self) == *old(self),
            },
    {
        let chars = to_chars(line);
        let shout = raised(&chars);
        if is_command(&shout) {
            let soft = lowered(&shout);
            return Tried::Command(read_command(&soft));
        }
        let guess = to_text(&shout);
        if guess.as_str().len() != #[verifier::truncate]
        (self.max_letters as usize) {
            Tried::WrongLength
        } else if !word_exists(dictionary, &guess) {
            Tried::NotAWord
        } else if self.was_guessed(&guess) {
            Tried::Repeated
        } else {
            Tried::Guessed(self.guess(&guess))
        }
    }
}

} // verus!
