//! A round of anagrams: the scramble, and the answers found so far.

use vstd::prelude::*;
use std::collections::HashMap;
use crate::anagrams::anagram::Anagram;
use crate::command::{command_of, is_command, read_command, Command};
use crate::text::{
    all_letters, byte_len, holds_word, lists, lower_word, lowered, only_letters, raise_word,
    raised, to_chars, to_text, views,
};
use crate::anagrams::utils::AnagramParams;
use crate::difficulty::Difficulty;
use crate::game::{difficulty_or_easy, Args};

verus! {

broadcast use vstd::std_specs::hash::group_hash_axioms;

/// The number of letters of a scramble, and so of the longest words played.
pub const ANAGRAM_SCRAMBLE_SIZE: usize = 8;

/// The narrowest terminal that the scramble fits on.
pub const MIN_TERM_WIDTH: usize = 70;

/// A round of anagrams.
pub struct Anagrams {
    pub current_level: i32,
    pub max_guesses: Option<i32>,
    pub current_guesses: i32,
    pub anagram: Option<Anagram>,
    pub answers: HashMap<usize, Vec<String>>,
    pub difficulty: Difficulty,
    pub params: AnagramParams,
}

/// What Webster's dictionary, as the crate `webster` holds it, says of
/// `word`, if it has an entry for it.
pub uninterp spec fn definition(word: Seq<char>) -> Option<Seq<char>>;

/// Whether the dictionary defines `word`.
pub open spec fn defined(word: Seq<char>) -> bool {
    definition(word) is Some
}

/// `webster::dictionary`: the entry of the dictionary for `word`, which
/// depends on the word alone.
#[verifier::external_body]
fn look_up(word: &str) -> (entry: Option<String>)
    ensures
        match entry {
            Some(text) => definition(word@) == Some(text@),
            None => definition(word@) is None,
        },
{
    webster::dictionary(word).map(str::to_string)
}

/// What the dictionary says of `word`, if it has an entry for it.
pub fn define(word: &str) -> (entry: Option<String>)
    ensures
        match entry {
            Some(text) => definition(word@) == Some(text@),
            None => definition(word@) is None,
        },
{
    look_up(word)
}

/// Whether the dictionary defines `word`.
pub fn is_defined(word: &str) -> (found: bool)
    ensures
        found == defined(word@),
{
    look_up(word).is_some()
}

/// Those of the first `upto` words of `list` that the dictionary defines
/// and that are not among `answers`, in their order.
pub open spec fn hints_among(list: Seq<String>, answers: Seq<String>, upto: int) -> Seq<Seq<char>>
    decreases upto,
{
    if upto <= 0 {
        Seq::empty()
    } else {
        let earlier = hints_among(list, answers, upto - 1);
        if defined(list[upto - 1]@) && !lists(answers, list[upto - 1]@) {
            earlier.push(list[upto - 1]@)
        } else {
            earlier
        }
    }
}

/// What a line of input was played as.
#[derive(Clone, Copy, Debug, PartialEq, Eq, Structural)]
pub enum Said {
    /// The round has no scramble yet; nothing changed.
    NoScramble,
    /// The line was a command; the round is as it was.
    Command(Command),
    /// The line holds a character that is no letter; nothing changed.
    NotLetters,
    /// The round plays no words of this length; nothing changed.
    WrongLength(usize),
    /// The line is none of the scramble's words; nothing changed.
    NotAWord,
    /// The answers of this length are full; nothing changed.
    Full(usize),
    /// The line was taken as an answer.
    Taken,
}

impl Anagrams {
    /// Whether the round plays the word length `letters`.
    pub open spec fn plays(&self, letters: usize) -> bool {
        self.params.first() <= letters <= self.params.last()
    }

    /// The parameters are in order and the answers have a list for each
    /// word length played.
    pub open spec fn ready(&self) -> bool {
        &&& self.params.wf()
        &&& forall|letters: usize| self.plays(letters) ==> #[trigger] self.answers@.contains_key(letters)
    }

    /// Whether the answers at the word length `letters` are as many as the
    /// round asks for.
    pub open spec fn full_at(&self, letters: usize) -> bool {
        self.answers@[letters]@.len() == self.params.entry_min_spec(letters)
    }

    /// Whether the round is won: at each word length played the answers are
    /// as many as the round asks for.
    pub open spec fn won(&self) -> bool {
        forall|letters: usize| self.plays(letters) ==> #[trigger] self.full_at(letters)
    }

    /// The words that a hint can be about at the word length `letters`:
    /// those of the scramble's words of that length that the dictionary
    /// defines and that are not among the answers of that length.
    pub open spec fn hints_at(&self, letters: usize) -> Seq<Seq<char>> {
        if self.anagram->0.words@.contains_key(letters) {
            hints_among(
                self.anagram->0.words@[letters]@,
                self.answers@[letters]@,
                self.anagram->0.words@[letters]@.len() as int,
            )
        } else {
            Seq::empty()
        }
    }

    /// The words that a hint can be about at the word lengths played up to
    /// `through`, shortest words first.
    pub open spec fn hints_through(&self, through: int) -> Seq<Seq<char>>
        decreases through - self.params.first() + 1,
    {
        if through < self.params.first() || through > usize::MAX {
            Seq::empty()
        } else {
            self.hints_through(through - 1) + self.hints_at(through as usize)
        }
    }

    /// Whether the other parts of the round are as in `other`: all but the
    /// answers.
    pub open spec fn same_round(&self, other: &Anagrams) -> bool {
        &&& self.current_level == other.current_level
        &&& self.max_guesses == other.max_guesses
        &&& self.current_guesses == other.current_guesses
        &&& self.anagram == other.anagram
        &&& self.difficulty == other.difficulty
        &&& self.params == other.params
    }

    /// Whether the answers are those of `other` but for the word length
    /// `letters`.
    pub open spec fn same_answers_but(&self, other: &Anagrams, letters: usize) -> bool {
        forall|length: usize|
            length != letters ==> (#[trigger] self.answers@.contains_key(length)
                == other.answers@.contains_key(length)) && (self.answers@.contains_key(length)
                ==> self.answers@[length] == other.answers@[length])
    }

    /// Whether the answers at the word length `letters` can be filled up
    /// with words of the scramble: the scramble has words of that length,
    /// and as many as the answers lack.
    pub open spec fn can_fill(&self, letters: usize) -> bool {
        &&& self.anagram->0.words@.contains_key(letters)
        &&& self.answers@[letters]@.len() <= self.params.entry_min_spec(letters)
        &&& self.params.entry_min_spec(letters) - self.answers@[letters]@.len()
            <= self.anagram->0.words@[letters]@.len()
    }

    /// The answers at the word length `letters`, filled up with the first
    /// words of the scramble at that length.
    pub open spec fn filled(&self, letters: usize) -> Seq<Seq<char>> {
        views(self.answers@[letters]@) + views(self.anagram->0.words@[letters]@).take(
            self.params.entry_min_spec(letters) - self.answers@[letters]@.len(),
        )
    }

    /// Whether the answers at the word length `letters` are those of
    /// `before`, filled up.
    pub open spec fn filled_from(&self, before: &Anagrams, letters: usize) -> bool {
        self.answers@.contains_key(letters) && views(self.answers@[letters]@) == before.filled(
            letters,
        )
    }

    /// Whether the answers at the word length `letters` are those of
    /// `before`.
    pub open spec fn kept_from(&self, before: &Anagrams, letters: usize) -> bool {
        self.answers@.contains_key(letters) == before.answers@.contains_key(letters) && (
        self.answers@.contains_key(letters) ==> self.answers@[letters] == before.answers@[letters])
    }

    /// What the line `line` is played as: in capitals, as a command if it
    /// starts with `!`, read in lower case, and as an answer otherwise.
    pub open spec fn said_of(&self, line: Seq<char>) -> Said {
        let shout = raise_word(line);
        let soft = lower_word(shout);
        if self.anagram is None {
            Said::NoScramble
        } else if shout.len() > 0 && shout[0] == '!' {
            Said::Command(command_of(soft))
        } else if !all_letters(shout) {
            Said::NotLetters
        } else if !self.plays(byte_len(shout)) {
            Said::WrongLength(byte_len(shout))
        } else if !(self.anagram->0.words@.contains_key(byte_len(soft)) && lists(
            self.anagram->0.words@[byte_len(soft)]@,
            soft,
        )) {
            Said::NotAWord
        } else if !(self.answers@[byte_len(shout)]@.len() < self.params.entry_min_spec(
            byte_len(shout),
        )) {
            Said::Full(byte_len(shout))
        } else {
            Said::Taken
        }
    }

    /// Starts a round of the difficulty that `args` ask for, `Easy` where
    /// they ask for none, with no scramble yet and no answers.
    pub fn new(args: &Args) -> (game: Anagrams)
        ensures
            game.ready(),
            game.current_level == 0,
            game.max_guesses is None,
            game.current_guesses == 0,
            game.anagram is None,
            game.difficulty == difficulty_or_easy(*args),
            game.params.level() == difficulty_or_easy(*args),
            forall|letters: usize|
                game.answers@.contains_key(letters) <==> game.plays(letters),
            forall|letters: usize|
                game.plays(letters) ==> (#[trigger] game.answers@[letters])@.len() == 0,
    {
        let difficulty = match args.difficulty {
            Some(difficulty) => difficulty,
            None => Difficulty::Easy,
        };
        let params = AnagramParams::new(&difficulty, None, None);
        let first = params.shortest();
        let last = params.longest();
        let mut answers: HashMap<usize, Vec<String>> = HashMap::new();
        let mut i: usize = first;
        while i <= last
            invariant
                4 <= first <= i <= last + 1,
                last <= 8,
                forall|letters: usize| answers@.contains_key(letters) <==> first <= letters < i,
                forall|letters: usize|
                    first <= letters < i ==> (#[trigger] answers@[letters])@.len() == 0,
            decreases last + 1 - i,
        {
            answers.insert(i, Vec::new());
            i += 1;
        }
        Anagrams {
            current_level: 0,
            max_guesses: None,
            current_guesses: 0,
            anagram: None,
            answers,
            difficulty,
            params,
        }
    }

    /// Records `guess` among the answers of its length unless they are
    /// full, and says whether they had room. A guess that is among them
    /// already is not recorded twice. The length of the guess is one that
    /// the round plays.
    pub fn insert_entry(&mut self, guess: &String) -> (res: bool)
        requires
            old(self).ready(),
            old(self).plays(byte_len(guess@)),
        ensures
            res == (old(self).answers@[byte_len(guess@)]@.len() < old(self).params.entry_min_spec(
                byte_len(guess@),
            )),
            final(self).same_round(old(self)),
            final(self).same_answers_but(old(self), byte_len(guess@)),
            final(self).answers@.contains_key(byte_len(guess@)),
            views(final(self).answers@[byte_len(guess@)]@) == if res && !lists(
                old(self).answers@[byte_len(guess@)]@,
                guess@,
            ) {
                views(old(self).answers@[byte_len(guess@)]@).push(guess@)
            } else {
                views(old(self).answers@[byte_len(guess@)]@)
            },
            !(res && !lists(old(self).answers@[byte_len(guess@)]@, guess@)) ==> final(self).answers@
                == old(self).answers@,
            final(self).ready(),
    {
        let key = guess.as_str().len();
        let entry_limit = self.params.entry_min(key);
        assert(self.answers@.contains_key(key));
        let mut entry = match self.answers.remove(&key) {
            Some(entry) => entry,
            None => {
                proof {
                    assert(false);
                }
                Vec::new()
            },
        };
        let res = entry.len() < entry_limit;
        if res && !holds_word(&entry, guess) {
            let ghost before = views(entry@);
            entry.push(guess.clone());
            assert(views(entry@) =~= before.push(guess@));
        }
        self.answers.insert(key, entry);
        proof {
            assert forall|letters: usize| self.plays(letters) implies #[trigger] self.answers@.contains_key(
                letters,
            ) by {
                assert(old(self).answers@.contains_key(letters));
            }
            if !(res && !lists(old(self).answers@[key]@, guess@)) {
                assert(self.answers@ =~= old(self).answers@);
            }
        }
        res
    }

    /// Whether the round is won.
    pub fn check_win(&self) -> (won: bool)
        requires
            self.ready(),
        ensures
            won == self.won(),
    {
        let first = self.params.shortest();
        let last = self.params.longest();
        if first > last {
            return true;
        }
        let mut i: usize = first;
        loop
            invariant
                self.ready(),
                first == self.params.first(),
                last == self.params.last(),
                first <= i <= last,
                forall|letters: usize| first <= letters < i ==> #[trigger] self.full_at(letters),
            decreases last - i,
        {
            let entries_required = self.params.entry_min(i);
            assert(self.answers@.contains_key(i));
            let found = match self.answers.get(&i) {
                Some(entry) => entry.len(),
                None => 0,
            };
            if found != entries_required {
                assert(!self.full_at(i));
                return false;
            }
            assert(self.full_at(i));
            if i == last {
                return true;
            }
            i += 1;
        }
    }

    /// The scramble of the round, which has one.
    pub fn get_scramble(&self) -> (scramble: String)
        requires
            self.anagram is Some,
        ensures
            scramble@ == self.anagram->0.scramble@,
    {
        match &self.anagram {
            Some(anagram) => anagram.scramble.clone(),
            None => String::new(),
        }
    }

    /// The words of the round's scramble, which it has.
    pub fn get_words(&self) -> (words: HashMap<usize, Vec<String>>)
        requires
            self.anagram is Some,
        ensures
            words@ == self.anagram->0.words@,
    {
        match &self.anagram {
            Some(anagram) => anagram.words.clone(),
            None => HashMap::new(),
        }
    }

    /// Whether a wrong guess of `guessed` letters is flashed in the row
    /// `row` of the answers of `section` letters: in the first row without
    /// an answer, if the guess has the length of the section.
    pub open spec fn flashes_spec(&self, section: usize, row: usize, guessed: usize) -> bool {
        &&& section == guessed
        &&& self.answers@.contains_key(section)
        &&& row == self.answers@[section]@.len()
    }

    /// Whether a wrong guess of `guessed` letters is flashed in the row
    /// `row` of the answers of `section` letters.
    pub fn flashes(&self, section: usize, row: usize, guessed: usize) -> (flashed: bool)
        ensures
            flashed == self.flashes_spec(section, row, guessed),
    {
        if section != guessed {
            return false;
        }
        match self.answers.get(&section) {
            Some(answers) => row == answers.len(),
            None => false,
        }
    }

    /// Fills up the answers at each word length played with the first
    /// words of the scramble at that length, as many as the answers lack.
    /// The round has a scramble with words enough for that.
    pub fn populate_answers(&mut self)
        requires
            old(self).ready(),
            old(self).anagram is Some,
            forall|letters: usize| old(self).plays(letters) ==> #[trigger] old(self).can_fill(letters),
        ensures
            final(self).same_round(old(self)),
            final(self).ready(),
            forall|letters: usize|
                old(self).plays(letters) ==> #[trigger] final(self).filled_from(old(self), letters),
            forall|letters: usize|
                !old(self).plays(letters) ==> #[trigger] final(self).kept_from(old(self), letters),
    {
        let words = self.get_words();
        let first = self.params.shortest();
        let last = self.params.longest();
        if first > last {
            return ;
        }
        let mut letters: usize = first;
        loop
            invariant
                old(self).ready(),
                old(self).anagram is Some,
                forall|length: usize| old(self).plays(length) ==> #[trigger] old(self).can_fill(length),
                self.same_round(old(self)),
                words@ == old(self).anagram->0.words@,
                first == self.params.first(),
                last == self.params.last(),
                first <= letters <= last,
                forall|length: usize|
                    first <= length < letters ==> #[trigger] self.filled_from(old(self), length),
                forall|length: usize|
                    !(first <= length < letters) ==> #[trigger] self.kept_from(old(self), length),
            decreases last - letters,
        {
            assert(old(self).can_fill(letters));
            assert(self.kept_from(old(self), letters));
            assert(old(self).answers@.contains_key(letters));
            let ghost before = self.answers@;
            let ghost started = *self;
            let mut answers = match self.answers.remove(&letters) {
                Some(answers) => answers,
                None => Vec::new(),
            };
            let ghost had = views(answers@);
            let entries_required = self.params.entry_min(letters) - answers.len();
            let list = match words.get(&letters) {
                Some(list) => list,
                None => {
                    proof {
                        assert(false);
                    }
                    return ;
                },
            };
            let mut taken: usize = 0;
            while taken < entries_required
                invariant
                    taken <= entries_required <= list@.len(),
                    views(answers@) == had + views(list@).take(taken as int),
                decreases entries_required - taken,
            {
                let ghost earlier = views(answers@);
                answers.push(list[taken].clone());
                assert(views(answers@) =~= earlier.push(list@[taken as int]@));
                assert(views(list@).take(taken + 1) =~= views(list@).take(taken as int).push(
                    list@[taken as int]@,
                ));
                assert(views(answers@) =~= had + views(list@).take(taken + 1));
                taken += 1;
            }
            let ghost removed = self.answers@;
            self.answers.insert(letters, answers);
            proof {
                assert(removed == before.remove(letters));
                assert(self.answers@ == removed.insert(letters, answers));
                assert(list@ == old(self).anagram->0.words@[letters]@);
                assert(had == views(old(self).answers@[letters]@));
                assert(self.filled_from(old(self), letters));
                assert forall|length: usize| first <= length < letters + 1 implies #[trigger] self.filled_from(
                    old(self),
                    length,
                ) by {
                    if length != letters {
                        assert(started.filled_from(old(self), length));
                        assert(self.answers@[length] == before[length]);
                    }
                }
                assert forall|length: usize| !(first <= length < letters + 1) implies #[trigger] self.kept_from(
                    old(self),
                    length,
                ) by {
                    assert(started.kept_from(old(self), length));
                    assert(self.answers@.contains_key(length) == before.contains_key(length));
                    assert(before.contains_key(length) ==> self.answers@[length] == before[length]);
                }
            }
            if letters == last {
                proof {
                    assert forall|length: usize| self.plays(length) implies #[trigger] self.answers@.contains_key(
                        length,
                    ) by {
                        assert(self.filled_from(old(self), length));
                    }
                }
                return ;
            }
            letters += 1;
        }
    }

    /// Plays the line `line` in capitals.
    ///
    /// Before the round has a scramble nothing is played. A line that
    /// starts with `!` is a command, read in lower case. Any other line is
    /// an answer: it is taken if it holds letters only, has a length that
    /// the round plays, is, in lower case, one of the scramble's words, and
    /// the answers of its length are not full. An answer that is taken is
    /// recorded in capitals unless it is among the answers already.
    pub fn play(&mut self, line: &str) -> (said: Said)
        requires
            old(self).ready(),
        ensures
            said == old(self).said_of(line@),
            final(self).ready(),
            final(self).same_round(old(self)),
            match said {
                Said::Taken => {
                    let guess = raise_word(line@);
                    &&& final(self).same_answers_but(old(self), byte_len(guess))
                    &&& final(self).answers@.contains_key(byte_len(guess))
                    &&& views(final(self).answers@[byte_len(guess)]@) == if lists(
                        old(self).answers@[byte_len(guess)]@,
                        guess,
                    ) {
                        views(old(self).answers@[byte_len(guess)]@)
                    } else {
                        views(old(self).answers@[byte_len(guess)]@).push(guess)
                    }
                },
                _ => final(self).answers@ == old(self).answers@,
            },
    {
        let known = match &self.anagram {
            Some(_) => true,
            None => false,
        };
        if !known {
            return Said::NoScramble;
        }
        let chars = to_chars(line);
        let shout = raised(&chars);
        let soft = lowered(&shout);
        if is_command(&shout) {
            return Said::Command(read_command(&soft));
        }
        if !only_letters(&shout) {
            return Said::NotLetters;
        }
        let guess = to_text(&shout);
        let length = guess.as_str().len();
        if !self.params.plays(length) {
            return Said::WrongLength(length);
        }
        let word = to_text(&soft);
        let valid = match &self.anagram {
            Some(anagram) => anagram.valid_word(&word),
            None => false,
        };
        if !valid {
            return Said::NotAWord;
        }
        if !self.insert_entry(&guess) {
            Said::Full(length)
        } else {
            Said::Taken
        }
    }

    /// Whether a hint can be about `word`, one of the scramble's words of
    /// `letters` letters, given whether the dictionary defines it: it can
    /// unless the word is among the answers of that length or has no
    /// definition.
    pub fn may_hint(&self, letters: usize, word: &String, known: bool) -> (may: bool)
        ensures
            may == (known && !(self.answers@.contains_key(letters) && lists(
                self.answers@[letters]@,
                word@,
            ))),
    {
        if !known {
            return false;
        }
        match self.answers.get(&letters) {
            Some(answers) => !holds_word(answers, word),
            None => true,
        }
    }

    /// The words that a hint can be about: of the scramble's words at the
    /// word lengths played, shortest first and in their order, those that
    /// the dictionary defines and that are not among the answers of their
    /// length.
    pub fn hint_pool(&self) -> (pool: Vec<String>)
        requires
            self.ready(),
            self.anagram is Some,
        ensures
            views(pool@) == self.hints_through(self.params.last() as int),
    {
        let words = self.get_words();
        let first = self.params.shortest();
        let last = self.params.longest();
        let mut pool: Vec<String> = Vec::new();
        if first > last {
            assert(views(pool@) =~= self.hints_through(last as int));
            return pool;
        }
        let mut letters: usize = first;
        assert(views(pool@) =~= self.hints_through(letters - 1));
        loop
            invariant
                self.ready(),
                self.anagram is Some,
                words@ == self.anagram->0.words@,
                first == self.params.first(),
                last == self.params.last(),
                first <= letters <= last,
                views(pool@) == self.hints_through(letters - 1),
            decreases last - letters,
        {
            assert(self.answers@.contains_key(letters));
            let ghost before = views(pool@);
            match (words.get(&letters), self.answers.get(&letters)) {
                (Some(list), Some(answers)) => {
                    let mut j: usize = 0;
                    assert(views(pool@) =~= before + hints_among(list@, answers@, 0));
                    while j < list.len()
                        invariant
                            j <= list@.len(),
                            self.answers@.contains_key(letters),
                            self.answers@[letters] == *answers,
                            views(pool@) == before + hints_among(list@, answers@, j as int),
                        decreases list@.len() - j,
                    {
                        let word = &list[j];
                        let ghost earlier = views(pool@);
                        if self.may_hint(letters, word, is_defined(word.as_str())) {
                            pool.push(word.clone());
                            assert(views(pool@) =~= earlier.push(word@));
                        }
                        assert(views(pool@) =~= before + hints_among(list@, answers@, j + 1));
                        j += 1;
                    }
                    assert(hints_among(list@, answers@, list@.len() as int) == self.hints_at(letters));
                },
                _ => {
                    assert(!words@.contains_key(letters));
                    assert(views(pool@) =~= before + self.hints_at(letters));
                },
            }
            assert(views(pool@) == self.hints_through(letters as int));
            if letters == last {
                return pool;
            }
            letters += 1;
        }
    }
}

} // verus!
