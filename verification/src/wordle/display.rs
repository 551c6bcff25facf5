//! What a round of wordle shows: the kind of screen, and the marks of a
//! guess.

use vstd::prelude::*;
use crate::text::{
    count_in, left_for, left_of, lemma_count_grows, lemma_same_key, letter_counts, to_chars,
};
use crate::wordle::round::Wordle;

verus! {

broadcast use vstd::std_specs::hash::group_hash_axioms;

/// The screens of a round.
#[derive(Clone, Copy, Debug, PartialEq, Eq, Structural)]
pub enum DisplayType {
    Start,
    GameBoard,
    Victory,
    Failure,
}

/// How a letter of a guess stands to the answer.
#[derive(Clone, Copy, Debug, PartialEq, Eq, Structural)]
pub enum Mark {
    /// The answer has this letter at this place.
    Correct,
    /// The answer has this letter at another place, not yet accounted for.
    Present,
    /// The answer has no such letter left.
    Absent,
}

/// A row of the board: whether it is the row of the current turn, and the
/// marks of its guess if it holds one.
pub struct Row {
    pub current: bool,
    pub marks: Option<Vec<Mark>>,
}

/// Whether the guess has at place `i` the letter that the answer has there.
pub open spec fn hit(answer: Seq<char>, guess: Seq<char>, i: int) -> bool {
    0 <= i < guess.len() && i < answer.len() && answer[i] == guess[i]
}

/// At how many of the first `upto` places the guess has `letter` where the
/// answer has it.
pub open spec fn hits_of(answer: Seq<char>, guess: Seq<char>, letter: char, upto: int) -> int
    decreases upto,
{
    if upto <= 0 {
        0
    } else {
        hits_of(answer, guess, letter, upto - 1) + if guess[upto - 1] == letter && hit(
            answer,
            guess,
            upto - 1,
        ) {
            1int
        } else {
            0int
        }
    }
}

/// How many copies of `letter` the answer has beyond those that the guess
/// has at the right place.
pub open spec fn spare(answer: Seq<char>, guess: Seq<char>, letter: char) -> int {
    count_in(answer, letter, answer.len() as int) - hits_of(
        answer,
        guess,
        letter,
        guess.len() as int,
    )
}

/// At how many of the first `upto` places the guess has `letter` marked as
/// present.
pub open spec fn near_of(answer: Seq<char>, guess: Seq<char>, letter: char, upto: int) -> int
    decreases upto, 0int,
{
    if upto <= 0 {
        0
    } else {
        near_of(answer, guess, letter, upto - 1) + if guess[upto - 1] == letter && mark_at(
            answer,
            guess,
            upto - 1,
        ) is Present {
            1int
        } else {
            0int
        }
    }
}

/// The mark of the letter at place `i` of the guess: correct where the
/// answer has the same letter; else present as long as the answer has a
/// spare copy of the letter that no earlier place of the guess has taken;
/// else absent.
pub open spec fn mark_at(answer: Seq<char>, guess: Seq<char>, i: int) -> Mark
    decreases i, 1int,
{
    if hit(answer, guess, i) {
        Mark::Correct
    } else if i >= 0 && spare(answer, guess, guess[i]) - near_of(answer, guess, guess[i], i) > 0 {
        Mark::Present
    } else {
        Mark::Absent
    }
}

/// The marks of a guess, place by place.
pub open spec fn marks_of(answer: Seq<char>, guess: Seq<char>) -> Seq<Mark> {
    Seq::new(guess.len(), |i: int| mark_at(answer, guess, i))
}

/// Each place where the guess has a letter right is a place where the
/// answer has that letter.
pub proof fn lemma_hits_bound(answer: Seq<char>, guess: Seq<char>, letter: char, upto: int)
    requires
        0 <= upto,
    ensures
        0 <= hits_of(answer, guess, letter, upto) <= count_in(
            answer,
            letter,
            if upto <= answer.len() {
                upto
            } else {
                answer.len() as int
            },
        ),
    decreases upto,
{
    if upto > 0 {
        lemma_hits_bound(answer, guess, letter, upto - 1);
    }
}

/// The unit type that the marking of guesses hangs on.
pub struct Display;

impl Display {
    /// Marks `guess` against `answer`, place by place.
    pub fn marks(answer: &str, guess: &str) -> (marks: Vec<Mark>)
        ensures
            marks@ == marks_of(answer@, guess@),
    {
        let answer_chars = to_chars(answer);
        let guess_chars = to_chars(guess);
        let mut left = letter_counts(&answer_chars);
        let mut correct: Vec<bool> = Vec::new();
        let mut i: usize = 0;
        while i < guess_chars.len()
            invariant
                i <= guess_chars@.len(),
                correct@.len() == i,
                forall|j: int| 0 <= j < i ==> correct@[j] == hit(answer_chars@, guess_chars@, j),
                forall|letter: char| #[trigger]
                    left_of(left@, letter) == count_in(
                        answer_chars@,
                        letter,
                        answer_chars@.len() as int,
                    ) - hits_of(answer_chars@, guess_chars@, letter, i as int),
            decreases guess_chars@.len() - i,
        {
            let c = guess_chars[i];
            let is_hit = i < answer_chars.len() && answer_chars[i] == c;
            correct.push(is_hit);
            if is_hit {
                let amount = left_for(&left, c);
                proof {
                    lemma_hits_bound(answer_chars@, guess_chars@, c, i as int);
                    lemma_count_grows(
                        answer_chars@,
                        c,
                        i + 1,
                        answer_chars@.len() as int,
                    );
                }
                let ghost before = left@;
                left.insert(c as u32, amount - 1);
                assert forall|letter: char| #[trigger]
                    left_of(left@, letter) == count_in(
                        answer_chars@,
                        letter,
                        answer_chars@.len() as int,
                    ) - hits_of(answer_chars@, guess_chars@, letter, i + 1) by {
                    assert(left_of(before, letter) == count_in(
                        answer_chars@,
                        letter,
                        answer_chars@.len() as int,
                    ) - hits_of(answer_chars@, guess_chars@, letter, i as int));
                    lemma_same_key(letter, c);
                }
            }
            i += 1;
        }
        let mut marks: Vec<Mark> = Vec::new();
        let mut i: usize = 0;
        while i < guess_chars.len()
            invariant
                i <= guess_chars@.len(),
                marks@.len() == i,
                correct@.len() == guess_chars@.len(),
                forall|j: int|
                    0 <= j < guess_chars@.len() ==> correct@[j] == hit(
                        answer_chars@,
                        guess_chars@,
                        j,
                    ),
                forall|j: int| 0 <= j < i ==> marks@[j] == mark_at(answer_chars@, guess_chars@, j),
                forall|letter: char| #[trigger]
                    left_of(left@, letter) == spare(answer_chars@, guess_chars@, letter) - near_of(
                        answer_chars@,
                        guess_chars@,
                        letter,
                        i as int,
                    ),
            decreases guess_chars@.len() - i,
        {
            let c = guess_chars[i];
            let amount = left_for(&left, c);
            let ghost before = left@;
            proof {
                assert(left_of(before, c) == spare(answer_chars@, guess_chars@, c) - near_of(
                    answer_chars@,
                    guess_chars@,
                    c,
                    i as int,
                ));
            }
            let mark = if correct[i] {
                Mark::Correct
            } else if amount > 0 {
                left.insert(c as u32, amount - 1);
                Mark::Present
            } else {
                Mark::Absent
            };
            marks.push(mark);
            proof {
                assert(mark == mark_at(answer_chars@, guess_chars@, i as int));
                assert forall|letter: char| #[trigger]
                    left_of(left@, letter) == spare(answer_chars@, guess_chars@, letter) - near_of(
                        answer_chars@,
                        guess_chars@,
                        letter,
                        i + 1,
                    ) by {
                    assert(left_of(before, letter) == spare(answer_chars@, guess_chars@, letter)
                        - near_of(answer_chars@, guess_chars@, letter, i as int));
                    lemma_same_key(letter, c);
                    assert(near_of(answer_chars@, guess_chars@, letter, i + 1) == near_of(
                        answer_chars@,
                        guess_chars@,
                        letter,
                        i as int,
                    ) + if guess_chars@[i as int] == letter && mark_at(
                        answer_chars@,
                        guess_chars@,
                        i as int,
                    ) is Present {
                        1int
                    } else {
                        0int
                    });
                }
            }
            i += 1;
        }
        assert(marks@ =~= marks_of(answer@, guess@));
        marks
    }

    /// The row of the board for the turn `index`, which is one of the
    /// round's turns: whether it is the current turn's, and the marks of the
    /// guess made at that turn, if one was made.
    pub fn row(game: &Wordle, index: i32) -> (row: Row)
        requires
            game.guesses@.contains_key(index),
        ensures
            row.current == (index == game.turn),
            match game.guesses@[index] {
                Some(guess) => row.marks matches Some(marks) && marks@ == marks_of(
                    game.answer@,
                    guess@,
                ),
                None => row.marks is None,
            },
    {
        let marks = match game.guesses.get(&index) {
            Some(Some(guess)) => Some(Display::marks(game.answer.as_str(), guess.as_str())),
            _ => None,
        };
        Row { current: index == game.turn, marks }
    }
}

} // verus!
