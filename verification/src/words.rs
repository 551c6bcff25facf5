//! Word lists: what a list of words on file holds, and whether a guess is
//! a word.

use vstd::prelude::*;
use crate::text::{
    all_letters, byte_len, holds_word, lists, only_letters, raise_word, raised, split_words,
    texts, to_chars, to_text, views, words_of, Spaces, WordSet,
};

verus! {

/// Whether `word` counts as a word of `letters` letters: it takes that
/// many bytes and holds nothing but the letters `a` to `z` and `A` to `Z`.
pub open spec fn is_entry(word: Seq<char>, letters: i32) -> bool {
    byte_len(word) == letters as usize && all_letters(word)
}

/// The words of `letters` letters among the first `upto` words of `words`,
/// in capitals, each once, in the order in which they first come.
pub open spec fn entries_upto(words: Seq<Seq<char>>, letters: i32, upto: int) -> Seq<Seq<char>>
    decreases upto,
{
    if upto <= 0 {
        Seq::empty()
    } else {
        let earlier = entries_upto(words, letters, upto - 1);
        let word = raise_word(words[upto - 1]);
        if is_entry(words[upto - 1], letters) && !earlier.contains(word) {
            earlier.push(word)
        } else {
            earlier
        }
    }
}

/// The words of `letters` letters in the text `list`, in capitals, each
/// once, in the order in which they first come.
pub open spec fn entries_of(list: Seq<char>, letters: i32) -> Seq<Seq<char>> {
    entries_upto(
        words_of(list, Spaces::Ascii),
        letters,
        words_of(list, Spaces::Ascii).len() as int,
    )
}

/// A list of strings holds a word exactly if their characters do.
pub proof fn lemma_lists_views(list: Seq<String>, word: Seq<char>)
    ensures
        lists(list, word) == views(list).contains(word),
{
    if lists(list, word) {
        let i = choose|i: int| 0 <= i < list.len() && (#[trigger] list[i])@ == word;
        assert(views(list)[i] == word);
    }
    if views(list).contains(word) {
        let i = choose|i: int| 0 <= i < views(list).len() && views(list)[i] == word;
        assert(list[i]@ == word);
    }
}

/// The words of `letters` letters in the text `list`, in capitals, each
/// once, in the order in which they first come. The words of the text are
/// parted by ASCII whitespace.
pub fn sanitise_gpt_list(list: &str, letters: i32) -> (entries: Vec<String>)
    ensures
        views(entries@) == entries_of(list@, letters),
{
    let chars = to_chars(list);
    let words = split_words(&chars, Spaces::Ascii);
    let ghost all = words_of(list@, Spaces::Ascii);
    let wanted: usize = #[verifier::truncate]
    (letters as usize);
    let mut entries: Vec<String> = Vec::new();
    let mut seen = WordSet::new();
    let mut i: usize = 0;
    while i < words.len()
        invariant
            i <= words@.len(),
            texts(words@) == all,
            wanted == letters as usize,
            views(entries@) == entries_upto(all, letters, i as int),
            forall|word: Seq<char>| #[trigger] seen.has(word) == lists(entries@, word),
        decreases words@.len() - i,
    {
        assert(all[i as int] == words@[i as int]@);
        let word = to_text(&words[i]);
        if word.as_str().len() == wanted && only_letters(&words[i]) {
            let entry = to_text(&raised(&words[i]));
            proof {
                lemma_lists_views(entries@, entry@);
            }
            if !seen.holds(&entry) {
                let ghost earlier = entries@;
                let ghost added = entry@;
                seen.add(entry.clone());
                entries.push(entry);
                proof {
                    assert(views(entries@) =~= views(earlier).push(raise_word(all[i as int])));
                    assert forall|word: Seq<char>| #[trigger]
                        seen.has(word) == lists(entries@, word) by {
                        if lists(earlier, word) {
                            let j = choose|j: int|
                                0 <= j < earlier.len() && (#[trigger] earlier[j])@ == word;
                            assert(entries@[j]@ == word);
                        }
                        if word == added {
                            assert(entries@[earlier.len() as int]@ == word);
                        }
                        if lists(entries@, word) && word != added {
                            let j = choose|j: int|
                                0 <= j < entries@.len() && (#[trigger] entries@[j])@ == word;
                            assert(earlier[j]@ == word);
                        }
                    }
                }
            }
        }
        i += 1;
    }
    entries
}

/// Whether one of `lists_of_words` holds `word`.
pub open spec fn known_in(lists_of_words: Seq<Vec<String>>, word: Seq<char>) -> bool {
    exists|i: int| 0 <= i < lists_of_words.len() && lists((#[trigger] lists_of_words[i])@, word)
}

/// Whether `word` is a word of one of the lists `lists_of_words`.
pub fn word_exists(lists_of_words: &Vec<Vec<String>>, word: &String) -> (known: bool)
    ensures
        known == known_in(lists_of_words@, word@),
{
    let mut i: usize = 0;
    while i < lists_of_words.len()
        invariant
            i <= lists_of_words@.len(),
            forall|j: int| 0 <= j < i ==> !lists((#[trigger] lists_of_words@[j])@, word@),
        decreases lists_of_words@.len() - i,
    {
        if holds_word(&lists_of_words[i], word) {
            return true;
        }
        i += 1;
    }
    false
}

} // verus!
