//! A scramble of letters and the words that can be laid with them.

use vstd::prelude::*;
use std::collections::HashMap;
use crate::anagrams::utils::AnagramParams;
use crate::random::RandomSource;
use crate::text::{
    byte_len, count_in, count_of, left_for, left_of, lemma_count_grows, lemma_same_key,
    letter_counts, lists, split_words, texts, to_chars, to_text, views, words_of, holds_word,
    Spaces,
};

verus! {

broadcast use vstd::std_specs::hash::group_hash_axioms;

/// A scramble of letters, and for each word length the words of that
/// length that can be laid with letters of the scramble.
#[derive(Clone, Debug, Default, PartialEq, Eq)]
pub struct Anagram {
    pub scramble: String,
    pub words: HashMap<usize, Vec<String>>,
}

/// Whether `word` can be laid with letters of `scramble`: it has each
/// letter no more often than the scramble has it.
pub open spec fn fits(word: Seq<char>, scramble: Seq<char>) -> bool {
    forall|letter: char| #[trigger] count_of(word, letter) <= count_of(scramble, letter)
}

/// Those of the first `upto` words of `words` that take `letters` bytes and
/// can be laid with letters of `scramble`, in their order.
pub open spec fn picked(words: Seq<Seq<char>>, scramble: Seq<char>, letters: usize, upto: int) -> Seq<
    Seq<char>,
>
    decreases upto,
{
    if upto <= 0 {
        Seq::empty()
    } else {
        let earlier = picked(words, scramble, letters, upto - 1);
        if byte_len(words[upto - 1]) == letters && fits(words[upto - 1], scramble) {
            earlier.push(words[upto - 1])
        } else {
            earlier
        }
    }
}

/// Whether `map` holds, for each length, those of the first `upto` words
/// of `words` that have the length and can be laid with letters of
/// `scramble`, and has no entry for a length without such a word.
pub open spec fn groups(
    map: Map<usize, Vec<String>>,
    words: Seq<Seq<char>>,
    scramble: Seq<char>,
    upto: int,
) -> bool {
    forall|letters: usize|
        {
            &&& #[trigger] map.contains_key(letters) <==> picked(
                words,
                scramble,
                letters,
                upto,
            ).len() > 0
            &&& map.contains_key(letters) ==> views(map[letters]@) == picked(
                words,
                scramble,
                letters,
                upto,
            )
        }
}

/// Whether `words` has, at the word length `letters`, the words that
/// `params` ask for at least.
pub open spec fn enough_at(words: Map<usize, Vec<String>>, params: &AnagramParams, letters: usize) -> bool {
    words.contains_key(letters) && words[letters]@.len() >= params.entry_min_spec(letters)
}

/// Whether `words` has, at each word length that `params` play, the words
/// that `params` ask for at least.
pub open spec fn enough(words: Map<usize, Vec<String>>, params: &AnagramParams) -> bool {
    forall|letters: usize|
        params.first() <= letters <= params.last() ==> #[trigger] enough_at(words, params, letters)
}

/// Whether the words of `all` that can be laid with letters of `scramble`
/// are, at each word length that `params` play, one at least and as many
/// as `params` ask for.
pub open spec fn enough_for(all: Seq<Seq<char>>, scramble: Seq<char>, params: &AnagramParams) -> bool {
    forall|letters: usize|
        params.first() <= letters <= params.last() ==> #[trigger] enough_picked(
            all,
            scramble,
            params,
            letters,
        )
}

/// Whether the words of `all` that take `letters` bytes and can be laid
/// with letters of `scramble` are one at least and as many as `params` ask
/// for.
pub open spec fn enough_picked(
    all: Seq<Seq<char>>,
    scramble: Seq<char>,
    params: &AnagramParams,
    letters: usize,
) -> bool {
    picked(all, scramble, letters, all.len() as int).len() > 0 && picked(
        all,
        scramble,
        letters,
        all.len() as int,
    ).len() >= params.entry_min_spec(letters)
}

/// Whether `word` is a word of `list` that takes `size` bytes.
pub open spec fn is_candidate(list: Seq<char>, size: usize, word: Seq<char>) -> bool {
    exists|k: int|
        0 <= k < words_of(list, Spaces::Ascii).len() && #[trigger] words_of(list, Spaces::Ascii)[k]
            == word && byte_len(word) == size
}

/// Whether `anagram` is made from `base`: its scramble holds the letters
/// of `base` in some order, and its words are the words of `list` that can
/// be laid with them.
pub open spec fn made_from(anagram: Anagram, base: Seq<char>, list: Seq<char>) -> bool {
    &&& anagram.scramble@.to_multiset() == base.to_multiset()
    &&& groups(
        anagram.words@,
        words_of(list, Spaces::Unicode),
        base,
        words_of(list, Spaces::Unicode).len() as int,
    )
}

/// Every word can be laid with its own letters.
pub proof fn lemma_fits_itself(word: Seq<char>)
    ensures
        twins(word, word),
{
}

/// A map that holds the words that can be laid with a scramble has enough
/// of them exactly if there are enough of them.
pub proof fn lemma_enough(
    map: Map<usize, Vec<String>>,
    all: Seq<Seq<char>>,
    scramble: Seq<char>,
    params: &AnagramParams,
)
    requires
        groups(map, all, scramble, all.len() as int),
    ensures
        enough(map, params) == enough_for(all, scramble, params),
{
    if enough(map, params) {
        assert forall|letters: usize|
            params.first() <= letters <= params.last() implies #[trigger] enough_picked(
            all,
            scramble,
            params,
            letters,
        ) by {
            assert(enough_at(map, params, letters));
            assert(map.contains_key(letters));
            assert(views(map[letters]@).len() == map[letters]@.len());
        }
    }
    if enough_for(all, scramble, params) {
        assert forall|letters: usize|
            params.first() <= letters <= params.last() implies #[trigger] enough_at(
            map,
            params,
            letters,
        ) by {
            assert(enough_picked(all, scramble, params, letters));
            assert(map.contains_key(letters));
            assert(views(map[letters]@).len() == map[letters]@.len());
        }
    }
}

/// Whether `word` can be laid with the letters that `counts` counts, which
/// are those of `scramble`.
fn fits_counts(word: &Vec<char>, counts: &HashMap<u32, usize>, Ghost(scramble): Ghost<Seq<char>>) -> (ok:
    bool)
    requires
        forall|letter: char| #[trigger] left_of(counts@, letter) == count_of(scramble, letter),
    ensures
        ok == fits(word@, scramble),
{
    let mut remaining = counts.clone();
    let mut i: usize = 0;
    while i < word.len()
        invariant
            i <= word@.len(),
            forall|letter: char| #[trigger]
                left_of(remaining@, letter) == count_of(scramble, letter) - count_in(
                    word@,
                    letter,
                    i as int,
                ),
        decreases word@.len() - i,
    {
        let c = word[i];
        let amount = left_for(&remaining, c);
        if amount == 0 {
            proof {
                assert(left_of(remaining@, c) == count_of(scramble, c) - count_in(
                    word@,
                    c,
                    i as int,
                ));
                lemma_count_grows(word@, c, i + 1, word@.len() as int);
                assert(count_of(word@, c) > count_of(scramble, c));
            }
            return false;
        }
        let ghost before = remaining@;
        remaining.insert(c as u32, amount - 1);
        assert forall|letter: char| #[trigger]
            left_of(remaining@, letter) == count_of(scramble, letter) - count_in(
                word@,
                letter,
                i + 1,
            ) by {
            assert(left_of(before, letter) == count_of(scramble, letter) - count_in(
                word@,
                letter,
                i as int,
            ));
            lemma_same_key(letter, c);
        }
        i += 1;
    }
    proof {
        assert forall|letter: char| #[trigger]
            count_of(word@, letter) <= count_of(scramble, letter) by {
            assert(left_of(remaining@, letter) == count_of(scramble, letter) - count_in(
                word@,
                letter,
                word@.len() as int,
            ));
        }
    }
    true
}

/// Whether `a` and `b` hold the same letters, each as often: each can be
/// laid with the letters of the other.
pub open spec fn twins(a: Seq<char>, b: Seq<char>) -> bool {
    fits(a, b) && fits(b, a)
}

/// Whether one of `classes` holds the same letters as `word`.
pub open spec fn has_twin(classes: Seq<String>, word: Seq<char>) -> bool {
    exists|j: int| 0 <= j < classes.len() && twins((#[trigger] classes[j])@, word)
}

/// What can be laid with a scramble can be laid with any scramble of the
/// same letters.
pub proof fn lemma_twins_fit(a: Seq<char>, b: Seq<char>, word: Seq<char>)
    requires
        twins(a, b),
    ensures
        fits(word, a) == fits(word, b),
{
    if fits(word, a) {
        assert forall|letter: char| #[trigger]
            count_of(word, letter) <= count_of(b, letter) by {
            assert(count_of(a, letter) <= count_of(b, letter));
        }
    }
    if fits(word, b) {
        assert forall|letter: char| #[trigger]
            count_of(word, letter) <= count_of(a, letter) by {
            assert(count_of(b, letter) <= count_of(a, letter));
        }
    }
}

/// Scrambles of the same letters pick the same words.
pub proof fn lemma_twins_picked(
    all: Seq<Seq<char>>,
    a: Seq<char>,
    b: Seq<char>,
    letters: usize,
    upto: int,
)
    requires
        twins(a, b),
    ensures
        picked(all, a, letters, upto) == picked(all, b, letters, upto),
    decreases upto,
{
    if upto > 0 {
        lemma_twins_picked(all, a, b, letters, upto - 1);
        lemma_twins_fit(a, b, all[upto - 1]);
    }
}

/// Scrambles of the same letters are good for the same rounds.
pub proof fn lemma_twins_enough(all: Seq<Seq<char>>, a: Seq<char>, b: Seq<char>, params: &AnagramParams)
    requires
        twins(a, b),
    ensures
        enough_for(all, a, params) == enough_for(all, b, params),
{
    assert forall|letters: usize| #![auto]
        enough_picked(all, a, params, letters) == enough_picked(all, b, params, letters) by {
        lemma_twins_picked(all, a, b, letters, all.len() as int);
    }
    if enough_for(all, a, params) {
        assert forall|letters: usize|
            params.first() <= letters <= params.last() implies #[trigger] enough_picked(
            all,
            b,
            params,
            letters,
        ) by {
            assert(enough_picked(all, a, params, letters));
        }
    }
    if enough_for(all, b, params) {
        assert forall|letters: usize|
            params.first() <= letters <= params.last() implies #[trigger] enough_picked(
            all,
            a,
            params,
            letters,
        ) by {
            assert(enough_picked(all, b, params, letters));
        }
    }
}

/// Whether `a` and `b` hold the same letters, each as often.
pub fn same_letters(a: &Vec<char>, b: &Vec<char>) -> (same: bool)
    ensures
        same == twins(a@, b@),
{
    let counts_a = letter_counts(a);
    let counts_b = letter_counts(b);
    fits_counts(a, &counts_b, Ghost(b@)) && fits_counts(b, &counts_a, Ghost(a@))
}

/// How often a scramble is picked blindly before the good ones are sought
/// out to pick among them.
pub const MAX_PICKS: usize = 64;

impl Anagram {
    /// One scramble for each set of letters that a word of `list` of
    /// `size` bytes holds, and no two for the same set.
    pub fn scrambles(list: &str, size: usize) -> (classes: Vec<String>)
        ensures
            forall|j: int|
                0 <= j < classes@.len() ==> is_candidate(list@, size, (#[trigger] classes@[j])@),
            forall|base: Seq<char>| #[trigger]
                is_candidate(list@, size, base) ==> has_twin(classes@, base),
            forall|i: int, j: int|
                0 <= i < j < classes@.len() ==> !twins(
                    (#[trigger] classes@[i])@,
                    (#[trigger] classes@[j])@,
                ),
    {
        let list_chars = to_chars(list);
        let candidates = split_words(&list_chars, Spaces::Ascii);
        let mut classes: Vec<String> = Vec::new();
        let mut i: usize = 0;
        while i < candidates.len()
            invariant
                i <= candidates@.len(),
                texts(candidates@) == words_of(list@, Spaces::Ascii),
                forall|j: int|
                    0 <= j < classes@.len() ==> is_candidate(list@, size, (#[trigger] classes@[j])@),
                forall|k: int|
                    0 <= k < i && byte_len(#[trigger] texts(candidates@)[k]) == size ==> has_twin(
                        classes@,
                        texts(candidates@)[k],
                    ),
                forall|a: int, b: int|
                    0 <= a < b < classes@.len() ==> !twins(
                        (#[trigger] classes@[a])@,
                        (#[trigger] classes@[b])@,
                    ),
            decreases candidates@.len() - i,
        {
            let word = to_text(&candidates[i]);
            assert(texts(candidates@)[i as int] == word@);
            if word.as_str().len() == size {
                let mut known = false;
                let mut j: usize = 0;
                while j < classes.len() && !known
                    invariant
                        j <= classes@.len(),
                        i < candidates@.len(),
                        known ==> has_twin(classes@, candidates@[i as int]@),
                        forall|a: int|
                            0 <= a < j && !known ==> !twins(
                                (#[trigger] classes@[a])@,
                                candidates@[i as int]@,
                            ),
                    decreases classes@.len() - j + if known { 0int } else { 1int },
                {
                    let other = to_chars(classes[j].as_str());
                    known = same_letters(&other, &candidates[i]);
                    if !known {
                        j += 1;
                    }
                }
                if !known {
                    let ghost earlier = classes@;
                    classes.push(word);
                    proof {
                        lemma_fits_itself(word@);
                        assert(twins(classes@[earlier.len() as int]@, word@));
                        assert forall|w: Seq<char>| has_twin(earlier, w) implies has_twin(
                            classes@,
                            w,
                        ) by {
                            let j = choose|j: int|
                                0 <= j < earlier.len() && twins((#[trigger] earlier[j])@, w);
                            assert(classes@[j] == earlier[j]);
                        }
                    }
                }
            }
            i += 1;
        }
        proof {
            assert forall|base: Seq<char>| #[trigger]
                is_candidate(list@, size, base) implies has_twin(classes@, base) by {
                let k = choose|k: int|
                    0 <= k < words_of(list@, Spaces::Ascii).len() && #[trigger] words_of(
                        list@,
                        Spaces::Ascii,
                    )[k] == base && byte_len(base) == size;
                assert(texts(candidates@)[k] == base);
            }
        }
        classes
    }

    /// The anagram of the scramble `base`: its letters in a random order,
    /// with the words of `list` that can be laid with them.
    pub fn from_base(base: &String, list: &str, rng: &mut RandomSource) -> (anagram: Anagram)
        ensures
            made_from(anagram, base@, list@),
    {
        let words = Anagram::words_from_scramble(base.as_str(), list);
        let letters = to_chars(base.as_str());
        let scramble = to_text(&rng.scramble(&letters));
        Anagram { scramble, words }
    }

    /// Picks a scramble for a round and finds its words.
    ///
    /// A scramble is made from a word of `list` that takes `size` bytes,
    /// and is good for a round if the words of `list` that can be laid
    /// with its letters are enough for `params`. A scramble is picked, each
    /// set of letters as likely as any other, until a good one comes. After
    /// `MAX_PICKS` picks the good scrambles are sought out, and one of them
    /// is picked. The letters of the scramble are put in a random order.
    /// Where no word of `list` makes a good scramble there is none to pick.
    pub fn new(list: &str, size: usize, params: &AnagramParams, rng: &mut RandomSource) -> (anagram:
        Option<Anagram>)
        requires
            params.wf(),
        ensures
            match anagram {
                Some(anagram) => exists|base: Seq<char>|
                    {
                        &&& #[trigger] is_candidate(list@, size, base)
                        &&& made_from(anagram, base, list@)
                        &&& enough(anagram.words@, params)
                    },
                None => forall|base: Seq<char>| #[trigger]
                    is_candidate(list@, size, base) ==> !enough_for(
                        words_of(list@, Spaces::Unicode),
                        base,
                        params,
                    ),
            },
    {
        let ghost all = words_of(list@, Spaces::Unicode);
        let classes = Anagram::scrambles(list, size);
        let mut picks: usize = 0;
        while picks < MAX_PICKS
            invariant
                picks <= MAX_PICKS,
                params.wf(),
                forall|j: int|
                    0 <= j < classes@.len() ==> is_candidate(list@, size, (#[trigger] classes@[j])@),
            decreases MAX_PICKS - picks,
        {
            match rng.pick(&classes) {
                Some(base) => {
                    let anagram = Anagram::from_base(base, list, rng);
                    if Anagram::valid_anagrams(&anagram.words, params) {
                        assert(is_candidate(list@, size, base@));
                        return Some(anagram);
                    }
                },
                None => {},
            }
            picks += 1;
        }
        let mut good: Vec<String> = Vec::new();
        let mut i: usize = 0;
        while i < classes.len()
            invariant
                i <= classes@.len(),
                params.wf(),
                all == words_of(list@, Spaces::Unicode),
                forall|j: int|
                    0 <= j < classes@.len() ==> is_candidate(list@, size, (#[trigger] classes@[j])@),
                forall|j: int|
                    0 <= j < good@.len() ==> is_candidate(list@, size, (#[trigger] good@[j])@)
                        && enough_for(all, good@[j]@, params),
                forall|j: int|
                    0 <= j < i && enough_for(all, (#[trigger] classes@[j])@, params) ==> good@.len()
                        > 0,
            decreases classes@.len() - i,
        {
            let words = Anagram::words_from_scramble(classes[i].as_str(), list);
            proof {
                lemma_enough(words@, all, classes@[i as int]@, params);
            }
            if Anagram::valid_anagrams(&words, params) {
                good.push(classes[i].clone());
            }
            i += 1;
        }
        match rng.pick(&good) {
            Some(base) => {
                let anagram = Anagram::from_base(base, list, rng);
                proof {
                    lemma_enough(anagram.words@, all, base@, params);
                    assert(is_candidate(list@, size, base@));
                }
                Some(anagram)
            },
            None => {
                proof {
                    assert forall|base: Seq<char>| #[trigger]
                        is_candidate(list@, size, base) implies !enough_for(all, base, params) by {
                        assert(has_twin(classes@, base));
                        let j = choose|j: int|
                            0 <= j < classes@.len() && twins((#[trigger] classes@[j])@, base);
                        lemma_twins_enough(all, classes@[j]@, base, params);
                    }
                }
                None
            },
        }
    }

    /// Whether `word` can be laid with letters of `scramble`.
    pub fn can_lay(word: &str, scramble: &str) -> (ok: bool)
        ensures
            ok == fits(word@, scramble@),
    {
        let letters = to_chars(scramble);
        let counts = letter_counts(&letters);
        let word = to_chars(word);
        fits_counts(&word, &counts, Ghost(scramble@))
    }

    /// Of the words of `input`, parted by whitespace, those that can be
    /// laid with letters of `scramble`, by their length in bytes and in
    /// their order.
    pub fn words_from_scramble(scramble: &str, input: &str) -> (result: HashMap<usize, Vec<String>>)
        ensures
            groups(
                result@,
                words_of(input@, Spaces::Unicode),
                scramble@,
                words_of(input@, Spaces::Unicode).len() as int,
            ),
    {
        let input_chars = to_chars(input);
        let words = split_words(&input_chars, Spaces::Unicode);
        let letters = to_chars(scramble);
        let counts = letter_counts(&letters);
        let ghost all = words_of(input@, Spaces::Unicode);
        let mut result: HashMap<usize, Vec<String>> = HashMap::new();
        let mut i: usize = 0;
        while i < words.len()
            invariant
                i <= words@.len(),
                texts(words@) == all,
                forall|letter: char| #[trigger] left_of(counts@, letter) == count_of(
                    scramble@,
                    letter,
                ),
                groups(result@, all, scramble@, i as int),
            decreases words@.len() - i,
        {
            let ghost before = result@;
            assert(all[i as int] == words@[i as int]@);
            if fits_counts(&words[i], &counts, Ghost(scramble@)) {
                let word = to_text(&words[i]);
                let key = word.as_str().len();
                let mut entry = match result.remove(&key) {
                    Some(entry) => entry,
                    None => Vec::new(),
                };
                let ghost earlier = views(entry@);
                entry.push(word);
                assert(views(entry@) =~= earlier.push(all[i as int]));
                result.insert(key, entry);
                assert forall|letters: usize|
                    {
                        &&& #[trigger] result@.contains_key(letters) <==> picked(
                            all,
                            scramble@,
                            letters,
                            i + 1,
                        ).len() > 0
                        &&& result@.contains_key(letters) ==> views(result@[letters]@) == picked(
                            all,
                            scramble@,
                            letters,
                            i + 1,
                        )
                    } by {
                    assert(before.contains_key(letters) <==> picked(
                        all,
                        scramble@,
                        letters,
                        i as int,
                    ).len() > 0);
                }
            } else {
                assert forall|letters: usize|
                    {
                        &&& #[trigger] result@.contains_key(letters) <==> picked(
                            all,
                            scramble@,
                            letters,
                            i + 1,
                        ).len() > 0
                        &&& result@.contains_key(letters) ==> views(result@[letters]@) == picked(
                            all,
                            scramble@,
                            letters,
                            i + 1,
                        )
                    } by {
                    assert(before.contains_key(letters) <==> picked(
                        all,
                        scramble@,
                        letters,
                        i as int,
                    ).len() > 0);
                }
            }
            i += 1;
        }
        result
    }

    /// Whether `words` has, at each word length that `params` play, the
    /// words that `params` ask for at least.
    pub fn valid_anagrams(words: &HashMap<usize, Vec<String>>, params: &AnagramParams) -> (valid:
        bool)
        requires
            params.wf(),
        ensures
            valid == enough(words@, params),
    {
        let first: usize = params.shortest();
        let last: usize = params.longest();
        if first > last {
            return true;
        }
        let mut i: usize = first;
        loop
            invariant
                params.wf(),
                first == params.first(),
                last == params.last(),
                first <= i <= last,
                forall|letters: usize|
                    first <= letters < i ==> #[trigger] enough_at(words@, params, letters),
            decreases last - i,
        {
            match words.get(&i) {
                Some(anagrams) => {
                    assert(words@.contains_key(i) && words@[i] == *anagrams);
                    if anagrams.len() < params.entry_min(i) {
                        assert(!enough_at(words@, params, i));
                        return false;
                    }
                },
                None => {
                    assert(!enough_at(words@, params, i));
                    return false;
                },
            }
            assert(enough_at(words@, params, i));
            if i == last {
                return true;
            }
            i += 1;
        }
    }

    /// Whether `word` is one of the words that can be laid with the letters
    /// of the scramble.
    pub fn valid_word(&self, word: &String) -> (valid: bool)
        ensures
            valid == (self.words@.contains_key(byte_len(word@)) && lists(
                self.words@[byte_len(word@)]@,
                word@,
            )),
    {
        match self.words.get(&word.as_str().len()) {
            Some(entries) => holds_word(entries, word),
            None => false,
        }
    }
}

} // verus!
