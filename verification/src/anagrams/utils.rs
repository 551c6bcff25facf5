//! The parameters of a round of anagrams: which word lengths are played,
//! and how many words of each length a difficulty asks for.

use vstd::prelude::*;
use std::collections::HashMap;
use std::ops::RangeInclusive;
use crate::difficulty::Difficulty;

verus! {

broadcast use vstd::std_specs::hash::group_hash_axioms;

/// `RangeInclusive::start`: the lower bound that the range was made with.
pub assume_specification<Idx>[ RangeInclusive::<Idx>::start ](range: &RangeInclusive<Idx>) -> (start:
    &Idx)
    ensures
        *start == range@.start,
;

/// `RangeInclusive::end`: the upper bound that the range was made with, as
/// long as nothing has iterated over the range.
pub assume_specification<Idx>[ RangeInclusive::<Idx>::end ](range: &RangeInclusive<Idx>) -> (end:
    &Idx)
    ensures
        !range@.exhausted ==> *end == range@.end,
;

/// The words asked for at one word length: by an easy, a medium and a hard
/// round.
pub type EntryAmounts = (usize, usize, usize);

/// The parameters of a round of anagrams.
pub struct AnagramParams {
    pub letter_range: RangeInclusive<usize>,
    pub difficulty: Difficulty,
    entry_amounts: HashMap<usize, EntryAmounts>,
}

/// The shortest and the longest word that a difficulty plays.
pub open spec fn letter_bounds(diff: Difficulty) -> (usize, usize) {
    match diff {
        Difficulty::Easy => (4, 6),
        Difficulty::Medium => (5, 7),
        Difficulty::Hard => (5, 8),
    }
}

/// The words asked for at a word length from 4 to 8.
pub open spec fn standard_amounts(letters: usize) -> EntryAmounts {
    if letters == 4 {
        (3, 0, 0)
    } else if letters == 5 {
        (2, 4, 5)
    } else if letters == 6 {
        (1, 3, 4)
    } else if letters == 7 {
        (0, 2, 3)
    } else {
        (0, 0, 2)
    }
}

/// The part of `amounts` that `diff` plays by.
pub open spec fn amount_for(amounts: EntryAmounts, diff: Difficulty) -> usize {
    match diff {
        Difficulty::Easy => amounts.0,
        Difficulty::Medium => amounts.1,
        Difficulty::Hard => amounts.2,
    }
}

/// The table of a standard round: the standard amounts at each word
/// length from `first` to `last`.
pub open spec fn standard_table(first: usize, last: usize) -> Map<usize, EntryAmounts> {
    Map::new(|letters: usize| first <= letters <= last, |letters: usize| standard_amounts(letters))
}

impl AnagramParams {
    /// The words asked for at each word length.
    pub closed spec fn entries(&self) -> Map<usize, EntryAmounts> {
        self.entry_amounts@
    }

    /// The shortest word length played.
    pub closed spec fn first(&self) -> usize {
        self.letter_range@.start
    }

    /// The longest word length played.
    pub closed spec fn last(&self) -> usize {
        self.letter_range@.end
    }

    /// The difficulty that the amounts are read by.
    pub closed spec fn level(&self) -> Difficulty {
        self.difficulty
    }

    /// Whether nothing has iterated over the range of word lengths.
    pub closed spec fn fresh(&self) -> bool {
        !self.letter_range@.exhausted
    }

    /// The range is as it was made, and the table has an entry for exactly
    /// the word lengths in it.
    pub open spec fn wf(&self) -> bool {
        &&& self.fresh()
        &&& forall|letters: usize|
            self.entries().contains_key(letters) <==> self.first() <= letters <= self.last()
    }

    /// The words that the round asks for at the word length `letters`.
    pub open spec fn entry_min_spec(&self, letters: usize) -> usize {
        amount_for(self.entries()[letters], self.level())
    }

    /// The parameters of a round.
    ///
    /// With both `guesses` and `letters` given the round is a blitz: one
    /// word length, `letters`, with `guesses` words asked for, played as
    /// easy. Otherwise it is a standard round of the difficulty `diff`.
    pub fn new(diff: &Difficulty, guesses: Option<i32>, letters: Option<i32>) -> (params: Self)
        ensures
            params.wf(),
            match (guesses, letters) {
                (Some(guesses), Some(letters)) => {
                    &&& params.first() == letters as usize
                    &&& params.last() == letters as usize
                    &&& params.level() == Difficulty::Easy
                    &&& params.entries() == Map::<usize, EntryAmounts>::empty().insert(
                        letters as usize,
                        (guesses as usize, 0, 0),
                    )
                },
                _ => {
                    &&& (params.first(), params.last()) == letter_bounds(*diff)
                    &&& params.level() == *diff
                    &&& params.entries() == standard_table(params.first(), params.last())
                },
            },
    {
        let mut map: HashMap<usize, EntryAmounts> = HashMap::new();
        if let (Some(guesses), Some(letters)) = (guesses, letters) {
            let length: usize = #[verifier::truncate]
            (letters as usize);
            let amount: usize = #[verifier::truncate]
            (guesses as usize);
            map.insert(length, (amount, 0, 0));
            return AnagramParams {
                letter_range: RangeInclusive::new(length, length),
                difficulty: Difficulty::Easy,
                entry_amounts: map,
            };
        }
        let (first, last): (usize, usize) = match diff {
            Difficulty::Easy => (4, 6),
            Difficulty::Medium => (5, 7),
            Difficulty::Hard => (5, 8),
        };
        let mut i: usize = first;
        while i <= last
            invariant
                4 <= first <= i <= last + 1,
                last <= 8,
                map@ == standard_table(first, (i - 1) as usize),
            decreases last + 1 - i,
        {
            let insert: EntryAmounts = if i == 4 {
                (3, 0, 0)
            } else if i == 5 {
                (2, 4, 5)
            } else if i == 6 {
                (1, 3, 4)
            } else if i == 7 {
                (0, 2, 3)
            } else {
                (0, 0, 2)
            };
            map.insert(i, insert);
            assert(map@ =~= standard_table(first, i));
            i += 1;
        }
        AnagramParams {
            letter_range: RangeInclusive::new(first, last),
            difficulty: *diff,
            entry_amounts: map,
        }
    }

    /// The words that the round asks for at the word length `letters`,
    /// which is one that the round plays.
    pub fn entry_min(&self, letters: usize) -> (amount: usize)
        requires
            self.entries().contains_key(letters),
        ensures
            amount == self.entry_min_spec(letters),
    {
        let entry_amounts = match self.entry_amounts.get(&letters) {
            Some(entry_amounts) => *entry_amounts,
            None => {
                proof {
                    assert(false);
                }
                (0, 0, 0)
            },
        };
        match self.difficulty {
            Difficulty::Easy => entry_amounts.0,
            Difficulty::Medium => entry_amounts.1,
            Difficulty::Hard => entry_amounts.2,
        }
    }

    /// The shortest word length played.
    pub fn shortest(&self) -> (letters: usize)
        ensures
            letters == self.first(),
    {
        *self.letter_range.start()
    }

    /// The longest word length played.
    pub fn longest(&self) -> (letters: usize)
        requires
            self.wf(),
        ensures
            letters == self.last(),
    {
        *self.letter_range.end()
    }

    /// Whether the round plays the word length `letters`.
    pub fn plays(&self, letters: usize) -> (played: bool)
        requires
            self.wf(),
        ensures
            played == (self.first() <= letters <= self.last()),
            played == self.entries().contains_key(letters),
    {
        *self.letter_range.start() <= letters && letters <= *self.letter_range.end()
    }
}

} // verus!
