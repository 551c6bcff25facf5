//! Strings as the games read them: character by character.

use vstd::prelude::*;
use std::collections::HashMap;

verus! {

broadcast use vstd::std_specs::hash::group_hash_axioms;

/// The `len` characters of `hay` from `start` on.
pub open spec fn run_at(hay: Seq<char>, start: int, len: int) -> Seq<char> {
    hay.subrange(start, start + len)
}

/// Whether `needle` occurs in `hay` as a run of consecutive characters.
pub open spec fn occurs_in(needle: Seq<char>, hay: Seq<char>) -> bool {
    exists|start: int|
        0 <= start && start + needle.len() <= hay.len() && #[trigger] run_at(
            hay,
            start,
            needle.len() as int,
        ) == needle
}

/// `str::contains` with a string slice as the pattern: whether the pattern
/// occurs in the string as a run of consecutive characters.
#[verifier::external_body]
fn str_contains(hay: &str, needle: &str) -> (found: bool)
    ensures
        found == occurs_in(needle@, hay@),
{
    hay.contains(needle)
}

/// Whether `needle` occurs in `hay`.
pub fn contains_text(hay: &String, needle: &String) -> (found: bool)
    ensures
        found == occurs_in(needle@, hay@),
{
    str_contains(hay.as_str(), needle.as_str())
}

/// The characters of `text`, one by one.
pub fn to_chars(text: &str) -> (chars: Vec<char>)
    ensures
        chars@ == text@,
{
    broadcast use vstd::string::group_string_axioms;

    let mut chars: Vec<char> = Vec::new();
    for c in it: text.chars()
        invariant
            it.seq() == text@,
            chars@ == it.seq().take(it.index() as int),
    {
        chars.push(c);
        assert(chars@ =~= it.seq().take(it.index() + 1));
    }
    assert(chars@ =~= text@);
    chars
}

/// `String::push`: the string with the character at its end.
pub assume_specification[ String::push ](text: &mut String, c: char)
    ensures
        final(text)@ == old(text)@.push(c),
;

/// The string that holds the characters `chars`.
pub fn to_text(chars: &Vec<char>) -> (text: String)
    ensures
        text@ == chars@,
{
    let mut text = String::new();
    let mut i: usize = 0;
    while i < chars.len()
        invariant
            i <= chars@.len(),
            text@ == chars@.take(i as int),
        decreases chars@.len() - i,
    {
        text.push(chars[i]);
        assert(text@ =~= chars@.take(i + 1));
        i += 1;
    }
    assert(chars@.take(chars@.len() as int) =~= chars@);
    text
}

/// Which characters part the words of a text.
#[derive(Clone, Copy, Debug, PartialEq, Eq, Structural)]
pub enum Spaces {
    /// ASCII whitespace: a space, a tab, a line feed, a form feed or a
    /// carriage return.
    Ascii,
    /// The characters that Unicode counts as white space.
    Unicode,
}

/// Whether `c` is ASCII whitespace.
pub open spec fn is_ascii_space(c: char) -> bool {
    c == ' ' || c == '\t' || c == '\n' || c == '\x0C' || c == '\r'
}

/// Whether Unicode counts `c` as white space.
pub open spec fn is_unicode_space(c: char) -> bool {
    ||| '\u{9}' <= c && c <= '\u{D}'
    ||| c == '\u{20}'
    ||| c == '\u{85}'
    ||| c == '\u{A0}'
    ||| c == '\u{1680}'
    ||| '\u{2000}' <= c && c <= '\u{200A}'
    ||| c == '\u{2028}'
    ||| c == '\u{2029}'
    ||| c == '\u{202F}'
    ||| c == '\u{205F}'
    ||| c == '\u{3000}'
}

/// Whether `c` parts words under `spaces`.
pub open spec fn is_space(c: char, spaces: Spaces) -> bool {
    match spaces {
        Spaces::Ascii => is_ascii_space(c),
        Spaces::Unicode => is_unicode_space(c),
    }
}

/// Whether `c` parts words under `spaces`.
pub fn parts_words(c: char, spaces: Spaces) -> (space: bool)
    ensures
        space == is_space(c, spaces),
{
    match spaces {
        Spaces::Ascii => c == ' ' || c == '\t' || c == '\n' || c == '\x0C' || c == '\r',
        Spaces::Unicode => ('\u{9}' <= c && c <= '\u{D}') || c == '\u{20}' || c == '\u{85}' || c
            == '\u{A0}' || c == '\u{1680}' || ('\u{2000}' <= c && c <= '\u{200A}') || c
            == '\u{2028}' || c == '\u{2029}' || c == '\u{202F}' || c == '\u{205F}' || c
            == '\u{3000}',
    }
}

/// What a reader has after the first `upto` characters of `text`: the
/// words that have ended, and the characters of the word that has not.
pub open spec fn read_upto(text: Seq<char>, spaces: Spaces, upto: int) -> (
    Seq<Seq<char>>,
    Seq<char>,
)
    decreases upto,
{
    if upto <= 0 {
        (Seq::empty(), Seq::empty())
    } else {
        let (done, word) = read_upto(text, spaces, upto - 1);
        if !is_space(text[upto - 1], spaces) {
            (done, word.push(text[upto - 1]))
        } else if word.len() > 0 {
            (done.push(word), Seq::empty())
        } else {
            (done, word)
        }
    }
}

/// The words of `text`: its longest runs of characters that are no
/// spaces, in their order.
pub open spec fn words_of(text: Seq<char>, spaces: Spaces) -> Seq<Seq<char>> {
    let (done, word) = read_upto(text, spaces, text.len() as int);
    if word.len() > 0 {
        done.push(word)
    } else {
        done
    }
}

/// Whether `word` is a word: it has a character at least, and none that
/// is a space.
pub open spec fn is_unbroken(word: Seq<char>, spaces: Spaces) -> bool {
    word.len() > 0 && forall|i: int| 0 <= i < word.len() ==> !is_space(#[trigger] word[i], spaces)
}

/// What a reader has after some characters is in order: each word that has
/// ended is a word, and the word that has not ended holds no space.
pub proof fn lemma_read_upto(text: Seq<char>, spaces: Spaces, upto: int)
    requires
        0 <= upto <= text.len(),
    ensures
        forall|k: int|
            0 <= k < read_upto(text, spaces, upto).0.len() ==> is_unbroken(
                #[trigger] read_upto(text, spaces, upto).0[k],
                spaces,
            ),
        forall|i: int|
            0 <= i < read_upto(text, spaces, upto).1.len() ==> !is_space(
                #[trigger] read_upto(text, spaces, upto).1[i],
                spaces,
            ),
    decreases upto,
{
    if upto > 0 {
        lemma_read_upto(text, spaces, upto - 1);
        let (done, word) = read_upto(text, spaces, upto - 1);
        let (next_done, next_word) = read_upto(text, spaces, upto);
        assert forall|k: int| 0 <= k < next_done.len() implies is_unbroken(
            #[trigger] next_done[k],
            spaces,
        ) by {
            if k < done.len() {
                assert(next_done[k] == done[k]);
            } else {
                assert(next_done[k] == word);
                assert forall|i: int| 0 <= i < word.len() implies !is_space(
                    #[trigger] word[i],
                    spaces,
                ) by {}
            }
        }
        assert forall|i: int| 0 <= i < next_word.len() implies !is_space(
            #[trigger] next_word[i],
            spaces,
        ) by {
            if i < word.len() {
                assert(next_word[i] == word[i]);
            }
        }
    }
}

/// Every word of a text has a character at least, and none that is a
/// space.
pub proof fn law_words_unbroken(text: Seq<char>, spaces: Spaces)
    ensures
        forall|k: int|
            0 <= k < words_of(text, spaces).len() ==> is_unbroken(
                #[trigger] words_of(text, spaces)[k],
                spaces,
            ),
{
    lemma_read_upto(text, spaces, text.len() as int);
}

/// The characters of each of `words`.
pub open spec fn texts(words: Seq<Vec<char>>) -> Seq<Seq<char>> {
    Seq::new(words.len(), |i: int| words[i]@)
}

/// The words of `text`.
pub fn split_words(text: &Vec<char>, spaces: Spaces) -> (words: Vec<Vec<char>>)
    ensures
        texts(words@) == words_of(text@, spaces),
{
    let mut done: Vec<Vec<char>> = Vec::new();
    let mut word: Vec<char> = Vec::new();
    let mut i: usize = 0;
    while i < text.len()
        invariant
            i <= text@.len(),
            (texts(done@), word@) == read_upto(text@, spaces, i as int),
        decreases text@.len() - i,
    {
        let c = text[i];
        let ghost before = texts(done@);
        if !parts_words(c, spaces) {
            word.push(c);
        } else if word.len() > 0 {
            let ghost ended = word@;
            done.push(word);
            word = Vec::new();
            assert(texts(done@) =~= before.push(ended));
        }
        i += 1;
    }
    if word.len() > 0 {
        let ghost before = texts(done@);
        let ghost ended = word@;
        done.push(word);
        assert(texts(done@) =~= before.push(ended));
    }
    done
}

/// The lower-case form of an ASCII capital; any other character as it is.
pub open spec fn lower(c: char) -> char {
    if 'A' <= c && c <= 'Z' {
        ((c as u8) + 32) as char
    } else {
        c
    }
}

/// The capital of an ASCII lower-case letter; any other character as it is.
pub open spec fn upper(c: char) -> char {
    if 'a' <= c && c <= 'z' {
        ((c as u8) - 32) as char
    } else {
        c
    }
}

/// The lower-case form of an ASCII capital; any other character as it is.
pub fn to_lower(c: char) -> (lowered: char)
    ensures
        lowered == lower(c),
{
    if 'A' <= c && c <= 'Z' {
        ((c as u8) + 32) as char
    } else {
        c
    }
}

/// The capital of an ASCII lower-case letter; any other character as it is.
pub fn to_upper(c: char) -> (raised: char)
    ensures
        raised == upper(c),
{
    if 'a' <= c && c <= 'z' {
        ((c as u8) - 32) as char
    } else {
        c
    }
}

/// `word` with each ASCII capital in lower case.
pub open spec fn lower_word(word: Seq<char>) -> Seq<char> {
    word.map_values(|c: char| lower(c))
}

/// `word` with each ASCII lower-case letter as a capital.
pub open spec fn raise_word(word: Seq<char>) -> Seq<char> {
    word.map_values(|c: char| upper(c))
}

/// Whether `letter` is one of `a` to `z` or `A` to `Z`.
pub open spec fn is_letter(letter: char) -> bool {
    ('a' <= letter && letter <= 'z') || ('A' <= letter && letter <= 'Z')
}

/// Whether every character of `word` is one of `a` to `z` or `A` to `Z`.
pub open spec fn all_letters(word: Seq<char>) -> bool {
    forall|i: int| 0 <= i < word.len() ==> is_letter(#[trigger] word[i])
}

/// Whether every character of `word` is one of `a` to `z` or `A` to `Z`.
pub fn only_letters(word: &Vec<char>) -> (only: bool)
    ensures
        only == all_letters(word@),
{
    let mut i: usize = 0;
    while i < word.len()
        invariant
            i <= word@.len(),
            forall|j: int| 0 <= j < i ==> is_letter(#[trigger] word@[j]),
        decreases word@.len() - i,
    {
        let c = word[i];
        if !(('a' <= c && c <= 'z') || ('A' <= c && c <= 'Z')) {
            return false;
        }
        i += 1;
    }
    true
}

/// `text` with each ASCII capital in lower case.
pub fn lowered(text: &Vec<char>) -> (result: Vec<char>)
    ensures
        result@ == lower_word(text@),
{
    let mut result: Vec<char> = Vec::new();
    let mut i: usize = 0;
    while i < text.len()
        invariant
            i <= text@.len(),
            result@ == text@.take(i as int).map_values(|c: char| lower(c)),
        decreases text@.len() - i,
    {
        result.push(to_lower(text[i]));
        assert(result@ =~= text@.take(i + 1).map_values(|c: char| lower(c)));
        i += 1;
    }
    assert(text@.take(text@.len() as int) =~= text@);
    result
}

/// `text` with each ASCII lower-case letter as a capital.
pub fn raised(text: &Vec<char>) -> (result: Vec<char>)
    ensures
        result@ == raise_word(text@),
{
    let mut result: Vec<char> = Vec::new();
    let mut i: usize = 0;
    while i < text.len()
        invariant
            i <= text@.len(),
            result@ == text@.take(i as int).map_values(|c: char| upper(c)),
        decreases text@.len() - i,
    {
        result.push(to_upper(text[i]));
        assert(result@ =~= text@.take(i + 1).map_values(|c: char| upper(c)));
        i += 1;
    }
    assert(text@.take(text@.len() as int) =~= text@);
    result
}

/// Whether two texts hold the same characters.
pub fn same_chars(a: &Vec<char>, b: &Vec<char>) -> (same: bool)
    ensures
        same == (a@ == b@),
{
    if a.len() != b.len() {
        return false;
    }
    let mut i: usize = 0;
    while i < a.len()
        invariant
            i <= a@.len(),
            a@.len() == b@.len(),
            forall|j: int| 0 <= j < i ==> a@[j] == b@[j],
        decreases a@.len() - i,
    {
        if a[i] != b[i] {
            return false;
        }
        i += 1;
    }
    assert(a@ =~= b@);
    true
}

/// Whether `text` holds the characters of the string `word`.
pub fn is_word(text: &Vec<char>, word: &str) -> (same: bool)
    ensures
        same == (text@ == word@),
{
    let other = to_chars(word);
    same_chars(text, &other)
}

/// The value of a decimal digit; `None` for any other character.
pub open spec fn digit_of(c: char) -> Option<int> {
    if '0' <= c && c <= '9' {
        Some(c as int - '0' as int)
    } else {
        None
    }
}

/// The number that the first `upto` characters of `digits` write in base ten;
/// `None` if one of them is no digit.
pub open spec fn number_upto(digits: Seq<char>, upto: int) -> Option<int>
    decreases upto,
{
    if upto <= 0 {
        Some(0)
    } else {
        match (number_upto(digits, upto - 1), digit_of(digits[upto - 1])) {
            (Some(number), Some(digit)) => Some(10 * number + digit),
            _ => None,
        }
    }
}

/// The characters after a leading `+`, or all of them if there is none.
pub open spec fn unsigned_part(text: Seq<char>) -> Seq<char> {
    if text.len() > 0 && text[0] == '+' {
        text.subrange(1, text.len() as int)
    } else {
        text
    }
}

/// The number that `text` writes: decimal digits, one at least, after at
/// most one `+`, with a value that a `usize` holds. `None` for any other
/// text.
pub open spec fn number_of(text: Seq<char>) -> Option<usize> {
    let digits = unsigned_part(text);
    if digits.len() == 0 {
        None
    } else {
        match number_upto(digits, digits.len() as int) {
            Some(number) if number <= usize::MAX => Some(number as usize),
            _ => None,
        }
    }
}

/// A number written with more digits is no smaller.
pub proof fn lemma_number_grows(digits: Seq<char>, from: int, upto: int)
    requires
        0 <= from <= upto,
    ensures
        match (number_upto(digits, from), number_upto(digits, upto)) {
            (Some(shorter), Some(longer)) => 0 <= shorter <= longer,
            (None, Some(_)) => false,
            _ => true,
        },
    decreases upto - from,
{
    if from < upto {
        lemma_number_grows(digits, from, upto - 1);
    } else {
        lemma_number_positive(digits, from);
    }
}

/// A number written in digits is not negative.
pub proof fn lemma_number_positive(digits: Seq<char>, upto: int)
    ensures
        number_upto(digits, upto) matches Some(number) ==> number >= 0,
    decreases upto,
{
    if upto > 0 {
        lemma_number_positive(digits, upto - 1);
    }
}

/// The number that `text` writes, if it writes one.
pub fn parse_number(text: &Vec<char>) -> (number: Option<usize>)
    ensures
        number == number_of(text@),
{
    let start: usize = if text.len() > 0 && text[0] == '+' {
        1
    } else {
        0
    };
    if start == text.len() {
        return None;
    }
    let ghost digits = unsigned_part(text@);
    let mut number: usize = 0;
    let mut i: usize = start;
    while i < text.len()
        invariant
            start <= i <= text@.len(),
            start <= 1,
            digits == unsigned_part(text@),
            digits == text@.subrange(start as int, text@.len() as int),
            number_upto(digits, i - start) == Some(number as int),
        decreases text@.len() - i,
    {
        let c = text[i];
        assert(digits[i - start] == c);
        if !('0' <= c && c <= '9') {
            proof {
                lemma_number_grows(digits, i - start + 1, digits.len() as int);
            }
            return None;
        }
        let digit: usize = (c as u8 - '0' as u8) as usize;
        let next = match number.checked_mul(10) {
            Some(tens) => tens.checked_add(digit),
            None => None,
        };
        match next {
            Some(next) => {
                number = next;
            },
            None => {
                proof {
                    lemma_number_grows(digits, i - start + 1, digits.len() as int);
                }
                return None;
            },
        }
        i += 1;
    }
    Some(number)
}

/// How often `letter` stands among the first `upto` characters of `word`.
pub open spec fn count_in(word: Seq<char>, letter: char, upto: int) -> int
    decreases upto,
{
    if upto <= 0 {
        0
    } else {
        count_in(word, letter, upto - 1) + if word[upto - 1] == letter {
            1int
        } else {
            0int
        }
    }
}

/// How often `letter` stands in `word`.
pub open spec fn count_of(word: Seq<char>, letter: char) -> int {
    count_in(word, letter, word.len() as int)
}

/// What `left` holds for `letter`: its entry, or 0 where it has none.
pub open spec fn left_of(left: Map<u32, usize>, letter: char) -> int {
    if left.contains_key(letter as u32) {
        left[letter as u32] as int
    } else {
        0
    }
}

/// Two letters have the same key only if they are the same letter.
pub proof fn lemma_same_key(a: char, b: char)
    ensures
        (a as u32 == b as u32) <==> a == b,
{
    vstd::utf8::char_u32_cast(a, a as u32);
    vstd::utf8::char_u32_cast(b, b as u32);
}

/// A letter stands in a word no more often than the word has places.
pub proof fn lemma_count_bound(word: Seq<char>, letter: char, upto: int)
    requires
        0 <= upto,
    ensures
        0 <= count_in(word, letter, upto) <= upto,
    decreases upto,
{
    if upto > 0 {
        lemma_count_bound(word, letter, upto - 1);
    }
}

/// The count of a letter grows with the part of the word that is counted.
pub proof fn lemma_count_grows(word: Seq<char>, letter: char, from: int, upto: int)
    requires
        0 <= from <= upto,
    ensures
        count_in(word, letter, from) <= count_in(word, letter, upto),
    decreases upto - from,
{
    if from < upto {
        lemma_count_grows(word, letter, from, upto - 1);
    }
}

/// The entry of `left` for the letter `letter`, or 0.
pub fn left_for(left: &HashMap<u32, usize>, letter: char) -> (amount: usize)
    ensures
        amount == left_of(left@, letter),
{
    match left.get(&(letter as u32)) {
        Some(amount) => *amount,
        None => 0,
    }
}

/// For each letter, how often it stands in `word`.
pub fn letter_counts(word: &Vec<char>) -> (counts: HashMap<u32, usize>)
    ensures
        forall|letter: char| #[trigger] left_of(counts@, letter) == count_of(word@, letter),
{
    let mut counts: HashMap<u32, usize> = HashMap::new();
    let mut i: usize = 0;
    while i < word.len()
        invariant
            i <= word@.len(),
            forall|letter: char| #[trigger]
                left_of(counts@, letter) == count_in(word@, letter, i as int),
        decreases word@.len() - i,
    {
        let c = word[i];
        let amount = left_for(&counts, c);
        proof {
            lemma_count_bound(word@, c, i as int);
        }
        let ghost before = counts@;
        counts.insert(c as u32, amount + 1);
        assert forall|letter: char| #[trigger]
            left_of(counts@, letter) == count_in(word@, letter, i + 1) by {
            assert(left_of(before, letter) == count_in(word@, letter, i as int));
            lemma_same_key(letter, c);
        }
        i += 1;
    }
    counts
}

/// The number of bytes that `word` takes as a string.
pub open spec fn byte_len(word: Seq<char>) -> usize {
    vstd::utf8::encode_utf8(word).len() as usize
}

/// The characters of each of `strings`.
pub open spec fn views(strings: Seq<String>) -> Seq<Seq<char>> {
    Seq::new(strings.len(), |i: int| strings[i]@)
}

/// Whether `list` holds a string with the characters `word`.
pub open spec fn lists(list: Seq<String>, word: Seq<char>) -> bool {
    exists|i: int| 0 <= i < list.len() && (#[trigger] list[i])@ == word
}

/// Whether `list` holds `word`.
pub fn holds_word(list: &Vec<String>, word: &String) -> (found: bool)
    ensures
        found == lists(list@, word@),
{
    let mut i: usize = 0;
    while i < list.len()
        invariant
            i <= list@.len(),
            forall|j: int| 0 <= j < i ==> (#[trigger] list@[j])@ != word@,
        decreases list@.len() - i,
    {
        if list[i] == *word {
            return true;
        }
        i += 1;
    }
    false
}

/// The number that the first `upto` characters of `word` are filed under.
pub open spec fn file_upto(word: Seq<char>, upto: int) -> int
    decreases upto,
{
    if upto <= 0 {
        0
    } else {
        (file_upto(word, upto - 1) * 31 + word[upto - 1] as u32) % 1_000_000_007
    }
}

/// The number that `word` is filed under.
pub open spec fn file_of(word: Seq<char>) -> int {
    file_upto(word, word.len() as int)
}

/// The number that `word` is filed under.
pub fn file_number(word: &Vec<char>) -> (number: u64)
    ensures
        number == file_of(word@),
{
    let mut number: u64 = 0;
    let mut i: usize = 0;
    while i < word.len()
        invariant
            i <= word@.len(),
            number == file_upto(word@, i as int),
            number < 1_000_000_007,
        decreases word@.len() - i,
    {
        let code: u32 = word[i] as u32;
        number = (number * 31 + code as u64) % 1_000_000_007;
        i += 1;
    }
    number
}

/// A set of words, filed by number so that a word is found without
/// looking through all of them.
pub struct WordSet {
    files: HashMap<u64, Vec<String>>,
}

impl WordSet {
    /// Whether the set holds `word`.
    pub closed spec fn has(&self, word: Seq<char>) -> bool {
        self.files@.contains_key(file_of(word) as u64) && lists(
            self.files@[file_of(word) as u64]@,
            word,
        )
    }

    /// The empty set.
    pub fn new() -> (set: WordSet)
        ensures
            forall|word: Seq<char>| !#[trigger] set.has(word),
    {
        WordSet { files: HashMap::new() }
    }

    /// Whether the set holds `word`.
    pub fn holds(&self, word: &String) -> (found: bool)
        ensures
            found == self.has(word@),
    {
        let chars = to_chars(word.as_str());
        let number = file_number(&chars);
        match self.files.get(&number) {
            Some(file) => holds_word(file, word),
            None => false,
        }
    }

    /// Puts `word` into the set.
    pub fn add(&mut self, word: String)
        ensures
            forall|other: Seq<char>| #[trigger]
                final(self).has(other) == (old(self).has(other) || other == word@),
    {
        let chars = to_chars(word.as_str());
        let number = file_number(&chars);
        let ghost before = self.files@;
        let ghost added = word@;
        let mut file = match self.files.remove(&number) {
            Some(file) => file,
            None => Vec::new(),
        };
        let ghost earlier = file@;
        file.push(word);
        self.files.insert(number, file);
        proof {
            assert forall|other: Seq<char>| #[trigger]
                self.has(other) == (old(self).has(other) || other == added) by {
                if file_of(other) as u64 == number {
                    if lists(earlier, other) {
                        let i = choose|i: int|
                            0 <= i < earlier.len() && (#[trigger] earlier[i])@ == other;
                        assert(file@[i]@ == other);
                    }
                    if other == added {
                        assert(file@[earlier.len() as int]@ == other);
                    }
                    if lists(file@, other) && other != added {
                        let i = choose|i: int| 0 <= i < file@.len() && (#[trigger] file@[i])@ == other;
                        assert(earlier[i]@ == other);
                    }
                } else {
                    assert(self.files@.contains_key(file_of(other) as u64) == before.contains_key(
                        file_of(other) as u64,
                    ));
                }
            }
        }
    }
}

} // verus!
