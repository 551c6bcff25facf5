//! Hangman: a round with the letters guessed so far.

use vstd::prelude::*;
use crate::difficulty::Difficulty;
use crate::game::{difficulty_or_easy, Args};
use crate::random::RandomSource;
use crate::command::{command_of, is_command, read_command, Command};
use crate::text::{is_letter, lower_word, lowered, raise_word, raised, to_chars};

verus! {

/// The length of the words that hangman plays.
pub const HANGMAN_WORD_SIZE: i32 = 7;

/// The number of wrong letters that lose a round.
pub const HANGMAN_GUESS_SIZE: i32 = 7;

/// A round of hangman.
pub struct Hangman {
    pub turn: i32,
    pub correct: Vec<char>,
    pub incorrect: Vec<char>,
    pub answer: String,
    pub difficulty: Difficulty,
    pub ascii: Vec<String>,
}

/// What a line of input does to a round.
#[derive(Clone, Copy, Debug, PartialEq, Eq, Structural)]
pub enum Guessed {
    /// The line is not one ASCII character; nothing changed.
    NotOneLetter,
    /// The character is no letter; nothing changed.
    NotALetter(char),
    /// The letter was guessed before; nothing changed.
    Repeated(char),
    /// The letter was recorded and completes the answer.
    Won,
    /// The letter was recorded and is the last wrong one allowed.
    Lost,
    /// The letter was recorded and the round goes on to the next turn.
    Next,
}

/// Whether `line` is a single ASCII character.
pub open spec fn one_ascii(line: Seq<char>) -> bool {
    line.len() == 1 && (line[0] as u32) < 128
}

/// Whether every letter of the answer is among `correct`.
pub open spec fn completes(answer: Seq<char>, correct: Seq<char>) -> bool {
    answer.to_set() == correct.to_set()
}

/// Whether `letters` holds `letter`.
pub fn holds(letters: &Vec<char>, letter: char) -> (found: bool)
    ensures
        found == letters@.contains(letter),
{
    let mut i: usize = 0;
    while i < letters.len()
        invariant
            i <= letters@.len(),
            forall|j: int| 0 <= j < i ==> letters@[j] != letter,
        decreases letters@.len() - i,
    {
        if letters[i] == letter {
            return true;
        }
        i += 1;
    }
    false
}

/// Whether every letter of `part` is in `whole`.
pub fn all_in(part: &Vec<char>, whole: &Vec<char>) -> (inside: bool)
    ensures
        inside == part@.to_set().subset_of(whole@.to_set()),
{
    let mut i: usize = 0;
    while i < part.len()
        invariant
            i <= part@.len(),
            forall|j: int| 0 <= j < i ==> whole@.contains(#[trigger] part@[j]),
        decreases part@.len() - i,
    {
        if !holds(whole, part[i]) {
            assert(part@.to_set().contains(part@[i as int]));
            assert(!whole@.to_set().contains(part@[i as int]));
            return false;
        }
        i += 1;
    }
    assert forall|letter: char| part@.to_set().contains(letter) implies whole@.to_set().contains(
        letter,
    ) by {
        let j = choose|j: int| 0 <= j < part@.len() && part@[j] == letter;
        assert(whole@.contains(part@[j]));
    }
    true
}

impl Hangman {
    /// Whether the round is won: the letters guessed right are the letters
    /// of the answer.
    pub open spec fn won(&self) -> bool {
        completes(self.answer@, self.correct@)
    }

    /// Whether `letter` was guessed before.
    pub open spec fn tried(&self, letter: char) -> bool {
        self.correct@.contains(letter) || self.incorrect@.contains(letter)
    }

    /// Whether the guess `line` is recorded: it is one ASCII letter that
    /// was not guessed before.
    pub open spec fn records(&self, line: Seq<char>) -> bool {
        one_ascii(line) && is_letter(line[0]) && !self.tried(line[0])
    }

    /// The letters guessed right after the guess `line`.
    pub open spec fn correct_after(&self, line: Seq<char>) -> Seq<char> {
        if self.records(line) && self.answer@.contains(line[0]) {
            self.correct@.push(line[0])
        } else {
            self.correct@
        }
    }

    /// The letters guessed wrong after the guess `line`.
    pub open spec fn incorrect_after(&self, line: Seq<char>) -> Seq<char> {
        if self.records(line) && !self.answer@.contains(line[0]) {
            self.incorrect@.push(line[0])
        } else {
            self.incorrect@
        }
    }

    /// What the guess `line` does to the round.
    pub open spec fn guessed_of(&self, line: Seq<char>) -> Guessed {
        if !one_ascii(line) {
            Guessed::NotOneLetter
        } else if !is_letter(line[0]) {
            Guessed::NotALetter(line[0])
        } else if self.tried(line[0]) {
            Guessed::Repeated(line[0])
        } else if completes(self.answer@, self.correct_after(line)) {
            Guessed::Won
        } else if self.incorrect_after(line).len() == HANGMAN_GUESS_SIZE {
            Guessed::Lost
        } else {
            Guessed::Next
        }
    }

    /// Whether this round is `before` after the guess `line`: the letter
    /// is recorded if it is to be, the turn is the next one if the round
    /// goes on, and nothing else has changed.
    pub open spec fn follows(&self, before: &Hangman, line: Seq<char>) -> bool {
        &&& self.correct@ == before.correct_after(line)
        &&& self.incorrect@ == before.incorrect_after(line)
        &&& self.turn == if before.guessed_of(line) == Guessed::Next {
            before.turn + 1
        } else {
            before.turn as int
        }
        &&& self.answer == before.answer
        &&& self.difficulty == before.difficulty
        &&& self.ascii == before.ascii
    }

    /// What the line `line` is played as: in capitals, as a command if it
    /// starts with `!`, read in lower case, and as a guess otherwise.
    pub open spec fn played_of(&self, line: Seq<char>) -> Played {
        let shout = raise_word(line);
        if shout.len() > 0 && shout[0] == '!' {
            Played::Command(command_of(lower_word(shout)))
        } else {
            Played::Guess(self.guessed_of(shout))
        }
    }

    /// Starts a round on the word list `words`, with one of its words as
    /// the answer, and with the pictures `ascii`. The list holds a word at
    /// least.
    pub fn new(args: Args, words: Vec<String>, ascii: Vec<String>, rng: &mut RandomSource) -> (game:
        Hangman)
        requires
            words@.len() > 0,
        ensures
            game.turn == 0,
            game.correct@.len() == 0,
            game.incorrect@.len() == 0,
            exists|i: int| 0 <= i < words@.len() && words@[i] == game.answer,
            game.difficulty == difficulty_or_easy(args),
            game.ascii == ascii,
    {
        let answer = match rng.pick(&words) {
            Some(word) => word.clone(),
            None => {
                proof {
                    assert(false);
                }
                String::new()
            },
        };
        let difficulty = match args.difficulty {
            Some(difficulty) => difficulty,
            None => Difficulty::Easy,
        };
        Hangman {
            turn: 0,
            correct: Vec::new(),
            incorrect: Vec::new(),
            answer,
            difficulty,
            ascii,
        }
    }

    /// The answer as the player sees it: each letter that was guessed, and
    /// a gap for each that was not.
    pub open spec fn masked_spec(&self) -> Seq<Option<char>> {
        Seq::new(
            self.answer@.len(),
            |i: int|
                if self.correct@.contains(self.answer@[i]) {
                    Some(self.answer@[i])
                } else {
                    None
                },
        )
    }

    /// The answer as the player sees it: each letter that was guessed, and
    /// a gap for each that was not.
    pub fn masked(&self) -> (shown: Vec<Option<char>>)
        ensures
            shown@ == self.masked_spec(),
    {
        let answer = to_chars(self.answer.as_str());
        let mut shown: Vec<Option<char>> = Vec::new();
        let mut i: usize = 0;
        while i < answer.len()
            invariant
                i <= answer@.len(),
                answer@ == self.answer@,
                shown@ == self.masked_spec().take(i as int),
            decreases answer@.len() - i,
        {
            let letter = answer[i];
            if holds(&self.correct, letter) {
                shown.push(Some(letter));
            } else {
                shown.push(None);
            }
            assert(shown@ =~= self.masked_spec().take(i + 1));
            i += 1;
        }
        assert(self.masked_spec().take(answer@.len() as int) =~= self.masked_spec());
        shown
    }

    /// Whether the round is won.
    pub fn check_win(&self) -> (won: bool)
        ensures
            won == self.won(),
    {
        let answer = to_chars(self.answer.as_str());
        let won = all_in(&answer, &self.correct) && all_in(&self.correct, &answer);
        proof {
            if won {
                assert(self.answer@.to_set() =~= self.correct@.to_set());
            }
        }
        won
    }

    /// Plays the characters `line`, which are no command.
    ///
    /// A line that is not one ASCII letter, or a letter guessed before,
    /// changes nothing. Any other letter is recorded, among the right ones
    /// if the answer holds it and among the wrong ones if not. After that
    /// the round is won if the right letters complete the answer, lost if
    /// the wrong ones have come to `HANGMAN_GUESS_SIZE`, and goes on to the
    /// next turn otherwise.
    pub fn guess(&mut self, line: &Vec<char>) -> (guessed: Guessed)
        requires
            old(self).turn < i32::MAX,
        ensures
            guessed == old(self).guessed_of(line@),
            final(self).follows(old(self), line@),
    {
        let chars = line;
        if chars.len() != 1 || chars[0] as u32 >= 128 {
            return Guessed::NotOneLetter;
        }
        let letter = chars[0];
        if !(('a' <= letter && letter <= 'z') || ('A' <= letter && letter <= 'Z')) {
            return Guessed::NotALetter(letter);
        }
        if holds(&self.incorrect, letter) || holds(&self.correct, letter) {
            return Guessed::Repeated(letter);
        }
        let answer = to_chars(self.answer.as_str());
        if holds(&answer, letter) {
            self.correct.push(letter);
        } else {
            self.incorrect.push(letter);
        }
        if self.check_win() {
            Guessed::Won
        } else if self.incorrect.len() == HANGMAN_GUESS_SIZE as usize {
            Guessed::Lost
        } else {
            self.turn += 1;
            Guessed::Next
        }
    }

    /// Plays the line `line` in capitals: as a command if it starts with
    /// `!`, read in lower case, and as a guess otherwise.
    pub fn play(&mut self, line: &str) -> (played: Played)
        requires
            old(self).turn < i32::MAX,
        ensures
            played == old(self).played_of(line@),
            match played {
                Played::Command(_) => *final(self) == *old(self),
                Played::Guess(_) => final(self).follows(old(self), raise_word(line@)),
            },
    {
        let chars = to_chars(line);
        let shout = raised(&chars);
        if is_command(&shout) {
            let soft = lowered(&shout);
            Played::Command(read_command(&soft))
        } else {
            Played::Guess(self.guess(&shout))
        }
    }
}

/// What a line of input was played as.
#[derive(Clone, Copy, Debug, PartialEq, Eq, Structural)]
pub enum Played {
    /// The line was a command; the round is as it was.
    Command(Command),
    /// The line was a guess, played in capitals.
    Guess(Guessed),
}

} // verus!
