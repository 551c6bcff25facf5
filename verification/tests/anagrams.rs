use mints::anagrams::utils::AnagramParams;
use mints::difficulty::Difficulty;

#[test]
fn standard_rounds_play_the_lengths_of_their_difficulty() {
    let easy = AnagramParams::new(&Difficulty::Easy, None, None);
    assert_eq!(easy.letter_range, 4..=6);
    assert_eq!(easy.difficulty, Difficulty::Easy);
    let medium = AnagramParams::new(&Difficulty::Medium, None, None);
    assert_eq!(medium.letter_range, 5..=7);
    assert_eq!(medium.difficulty, Difficulty::Medium);
    let hard = AnagramParams::new(&Difficulty::Hard, Some(3), None);
    assert_eq!(hard.letter_range, 5..=8);
    assert_eq!(hard.difficulty, Difficulty::Hard);
}

#[test]
fn entry_min_reads_the_column_of_the_difficulty() {
    let easy = AnagramParams::new(&Difficulty::Easy, None, None);
    assert_eq!((easy.entry_min(4), easy.entry_min(5), easy.entry_min(6)), (3, 2, 1));
    let medium = AnagramParams::new(&Difficulty::Medium, None, Some(5));
    assert_eq!((medium.entry_min(5), medium.entry_min(6), medium.entry_min(7)), (4, 3, 2));
    let hard = AnagramParams::new(&Difficulty::Hard, None, None);
    assert_eq!(
        (hard.entry_min(5), hard.entry_min(6), hard.entry_min(7), hard.entry_min(8)),
        (5, 4, 3, 2)
    );
}

#[test]
fn blitz_rounds_play_one_length_as_easy() {
    let blitz = AnagramParams::new(&Difficulty::Hard, Some(9), Some(7));
    assert_eq!(blitz.letter_range, 7..=7);
    assert_eq!(blitz.difficulty, Difficulty::Easy);
    assert_eq!(blitz.entry_min(7), 9);
    assert!(blitz.plays(7));
    assert!(!blitz.plays(6));
    assert!(!blitz.plays(8));
}

#[test]
fn plays_tells_the_lengths_in_the_range() {
    let hard = AnagramParams::new(&Difficulty::Hard, None, None);
    assert!(!hard.plays(4));
    assert!(hard.plays(5));
    assert!(hard.plays(8));
    assert!(!hard.plays(9));
}

use mints::anagrams::anagram::{same_letters, Anagram};
use mints::anagrams::round::{define, is_defined, Anagrams, Said};
use mints::command::Command;
use mints::game::{Args, Mints};
use mints::random::RandomSource;
use std::collections::HashMap;

fn strings(words: &[&str]) -> Vec<String> {
    words.iter().map(|word| word.to_string()).collect()
}

fn args(difficulty: Option<Difficulty>) -> Args {
    Args { game: Mints::Anagrams, guesses: None, letters: None, timer: None, difficulty }
}

const LIST: &str = "rate tear tare east seat teas eats
    aster rates stare tears treat taste state
    taster treats stater tatars
    strata attest
    restate
    estate";

fn round_with(scramble: &str) -> Anagrams {
    let mut game = Anagrams::new(&args(None));
    game.anagram = Some(Anagram {
        scramble: scramble.to_string(),
        words: Anagram::words_from_scramble(scramble, LIST),
    });
    game
}

#[test]
fn shortest_and_longest_are_the_ends_of_the_range() {
    let medium = AnagramParams::new(&Difficulty::Medium, None, None);
    assert_eq!((medium.shortest(), medium.longest()), (5, 7));
    let blitz = AnagramParams::new(&Difficulty::Medium, Some(2), Some(6));
    assert_eq!((blitz.shortest(), blitz.longest()), (6, 6));
}

#[test]
fn can_lay_counts_the_letters() {
    assert!(Anagram::can_lay("tear", "restate"));
    assert!(Anagram::can_lay("restate", "restate"));
    assert!(Anagram::can_lay("", "restate"));
    assert!(Anagram::can_lay("tatter", "tatters"));
    assert!(!Anagram::can_lay("tatter", "restate"));
    assert!(!Anagram::can_lay("restates", "restate"));
    assert!(!Anagram::can_lay("a", ""));
    assert!(same_letters(&"stare".chars().collect(), &"tears".chars().collect()));
    assert!(!same_letters(&"stare".chars().collect(), &"tear".chars().collect()));
    assert!(!same_letters(&"stare".chars().collect(), &"start".chars().collect()));
}

#[test]
fn words_from_scramble_groups_by_length() {
    let words = Anagram::words_from_scramble("restate", LIST);
    let mut expected = HashMap::new();
    expected.insert(4, strings(&["rate", "tear", "tare", "east", "seat", "teas", "eats"]));
    expected.insert(5, strings(&["aster", "rates", "stare", "tears", "treat", "taste", "state"]));
    expected.insert(6, strings(&["taster", "treats", "stater", "estate"]));
    expected.insert(7, strings(&["restate"]));
    assert_eq!(words, expected);
    assert_eq!(Anagram::words_from_scramble("xyz", LIST), HashMap::new());
    assert_eq!(Anagram::words_from_scramble("restate", ""), HashMap::new());
}

#[test]
fn words_from_scramble_parts_words_at_any_whitespace() {
    let words = Anagram::words_from_scramble("tae", "ate\u{A0}eat\u{2003}tea\u{0B}eta");
    let mut expected = HashMap::new();
    expected.insert(3, strings(&["ate", "eat", "tea", "eta"]));
    assert_eq!(words, expected);
}

#[test]
fn words_are_grouped_by_their_length_in_bytes() {
    let words = Anagram::words_from_scramble("ééa", "é éa aé");
    let mut expected = HashMap::new();
    expected.insert(2, strings(&["é"]));
    expected.insert(3, strings(&["éa", "aé"]));
    assert_eq!(words, expected);
}

#[test]
fn valid_anagrams_wants_enough_words_at_each_length() {
    let easy = AnagramParams::new(&Difficulty::Easy, None, None);
    let mut words = HashMap::new();
    words.insert(4, strings(&["rate", "tear", "tare"]));
    words.insert(5, strings(&["aster", "rates"]));
    assert!(!Anagram::valid_anagrams(&words, &easy));
    words.insert(6, strings(&["taster"]));
    assert!(Anagram::valid_anagrams(&words, &easy));
    words.insert(4, strings(&["rate", "tear"]));
    assert!(!Anagram::valid_anagrams(&words, &easy));
    words.insert(4, strings(&["rate", "tear", "tare", "east"]));
    words.insert(9, Vec::new());
    assert!(Anagram::valid_anagrams(&words, &easy));
    let medium = AnagramParams::new(&Difficulty::Medium, None, None);
    assert!(!Anagram::valid_anagrams(&words, &medium));
}

#[test]
fn a_length_that_asks_for_no_word_still_wants_its_entry() {
    let blitz = AnagramParams::new(&Difficulty::Easy, Some(0), Some(4));
    let mut words = HashMap::new();
    assert!(!Anagram::valid_anagrams(&words, &blitz));
    words.insert(4, Vec::new());
    assert!(Anagram::valid_anagrams(&words, &blitz));
}

#[test]
fn valid_word_looks_among_the_words_of_its_length() {
    let anagram = Anagram {
        scramble: "restate".to_string(),
        words: Anagram::words_from_scramble("restate", LIST),
    };
    assert!(anagram.valid_word(&"tear".to_string()));
    assert!(anagram.valid_word(&"restate".to_string()));
    assert!(!anagram.valid_word(&"tea".to_string()));
    assert!(!anagram.valid_word(&"test".to_string()));
    assert!(!anagram.valid_word(&"TEAR".to_string()));
    assert!(!anagram.valid_word(&"attest".to_string()));
}

#[test]
fn new_picks_a_scramble_with_enough_words() {
    let params = AnagramParams::new(&Difficulty::Easy, Some(3), Some(5));
    for seed in 0..20u64 {
        let mut rng = RandomSource::from_seed(seed);
        let anagram = Anagram::new(LIST, 7, &params, &mut rng).unwrap();
        let mut letters: Vec<char> = anagram.scramble.chars().collect();
        letters.sort();
        assert_eq!(letters, vec!['a', 'e', 'e', 'r', 's', 't', 't']);
        assert_eq!(anagram.words, Anagram::words_from_scramble("restate", LIST));
        assert!(Anagram::valid_anagrams(&anagram.words, &params));
    }
}

#[test]
fn new_picks_among_all_good_scrambles() {
    let params = AnagramParams::new(&Difficulty::Easy, Some(2), Some(4));
    let mut seen = std::collections::HashSet::new();
    for seed in 0..60u64 {
        let mut rng = RandomSource::from_seed(seed);
        let anagram = Anagram::new(LIST, 6, &params, &mut rng).unwrap();
        let mut letters: Vec<char> = anagram.scramble.chars().collect();
        letters.sort();
        seen.insert(letters.iter().collect::<String>());
        assert!(anagram.words.get(&4).unwrap().len() >= 2);
    }
    let mut seen: Vec<String> = seen.into_iter().collect();
    seen.sort();
    assert_eq!(seen, strings(&["aeestt", "aerstt", "aesttt"]));
}

#[test]
fn new_finds_nothing_where_no_scramble_is_good() {
    let mut rng = RandomSource::from_seed(0);
    let hard = AnagramParams::new(&Difficulty::Hard, None, None);
    assert!(Anagram::new(LIST, 7, &hard, &mut rng).is_none());
    let easy = AnagramParams::new(&Difficulty::Easy, Some(1), Some(4));
    assert!(Anagram::new(LIST, 9, &easy, &mut rng).is_none());
    assert!(Anagram::new("", 4, &easy, &mut rng).is_none());
}

#[test]
fn a_new_round_has_an_empty_list_for_each_length() {
    let game = Anagrams::new(&args(Some(Difficulty::Hard)));
    assert_eq!(game.current_level, 0);
    assert_eq!(game.max_guesses, None);
    assert_eq!(game.current_guesses, 0);
    assert!(game.anagram.is_none());
    assert_eq!(game.difficulty, Difficulty::Hard);
    assert_eq!(game.params.letter_range, 5..=8);
    let mut expected = HashMap::new();
    for letters in 5..=8 {
        expected.insert(letters, Vec::<String>::new());
    }
    assert_eq!(game.answers, expected);
    assert_eq!(Anagrams::new(&args(None)).params.letter_range, 4..=6);
}

#[test]
fn insert_entry_takes_answers_until_the_length_is_full() {
    let mut game = round_with("restate");
    assert!(game.insert_entry(&"TASTER".to_string()));
    assert_eq!(game.answers.get(&6), Some(&strings(&["TASTER"])));
    assert!(!game.insert_entry(&"TREATS".to_string()));
    assert_eq!(game.answers.get(&6), Some(&strings(&["TASTER"])));
    assert!(game.insert_entry(&"ASTER".to_string()));
    assert!(game.insert_entry(&"ASTER".to_string()));
    assert_eq!(game.answers.get(&5), Some(&strings(&["ASTER"])));
    assert!(game.insert_entry(&"RATES".to_string()));
    assert!(!game.insert_entry(&"STARE".to_string()));
    assert_eq!(game.answers.get(&5), Some(&strings(&["ASTER", "RATES"])));
    assert_eq!(game.answers.get(&4), Some(&Vec::new()));
}

#[test]
fn check_win_wants_every_length_full() {
    let mut game = round_with("restate");
    assert!(!game.check_win());
    for word in ["RATE", "TEAR", "TARE", "ASTER", "RATES"] {
        assert!(game.insert_entry(&word.to_string()));
        assert!(!game.check_win());
    }
    assert!(game.insert_entry(&"TASTER".to_string()));
    assert!(game.check_win());
}

#[test]
fn populate_answers_fills_up_with_the_first_words() {
    let mut game = round_with("restate");
    game.insert_entry(&"TEAR".to_string());
    game.insert_entry(&"TASTER".to_string());
    game.populate_answers();
    assert_eq!(game.answers.get(&4), Some(&strings(&["TEAR", "rate", "tear"])));
    assert_eq!(game.answers.get(&5), Some(&strings(&["aster", "rates"])));
    assert_eq!(game.answers.get(&6), Some(&strings(&["TASTER"])));
    assert_eq!(game.answers.len(), 3);
    assert!(game.check_win());
    let filled = game.answers.clone();
    game.populate_answers();
    assert_eq!(game.answers, filled);
}

#[test]
fn get_scramble_and_get_words_hand_out_copies() {
    let game = round_with("restate");
    assert_eq!(game.get_scramble(), "restate");
    assert_eq!(game.get_words(), Anagram::words_from_scramble("restate", LIST));
}

#[test]
fn anagrams_play_sorts_out_lines() {
    let mut game = Anagrams::new(&args(None));
    assert_eq!(game.play("tear"), Said::NoScramble);
    assert_eq!(game.play("!quit"), Said::NoScramble);
    let mut game = round_with("restate");
    assert_eq!(game.play("!quit"), Said::Command(Command::Quit));
    assert_eq!(game.play("!Hint"), Said::Command(Command::Hint));
    assert_eq!(game.play("!"), Said::Command(Command::Unknown));
    assert_eq!(game.play("te ar"), Said::NotLetters);
    assert_eq!(game.play("tear5"), Said::NotLetters);
    assert_eq!(game.play("tea"), Said::WrongLength(3));
    assert_eq!(game.play("restate"), Said::WrongLength(7));
    assert_eq!(game.play(""), Said::WrongLength(0));
    assert_eq!(game.play("test"), Said::NotAWord);
    assert_eq!(game.play("attest"), Said::NotAWord);
    assert_eq!(game.answers.get(&4), Some(&Vec::new()));
    assert_eq!(game.play("Taster"), Said::Taken);
    assert_eq!(game.answers.get(&6), Some(&strings(&["TASTER"])));
    assert_eq!(game.play("treats"), Said::Full(6));
    assert_eq!(game.play("taster"), Said::Full(6));
    assert_eq!(game.play("tear"), Said::Taken);
    assert_eq!(game.play("TEAR"), Said::Taken);
    assert_eq!(game.answers.get(&4), Some(&strings(&["TEAR"])));
    assert!(!game.check_win());
}

#[test]
fn hints_are_about_defined_words_that_are_not_answered() {
    let mut game = Anagrams::new(&args(None));
    let mut words = HashMap::new();
    words.insert(4, strings(&["rust", "zxqj", "tear"]));
    words.insert(5, strings(&["stare", "qqqqq"]));
    words.insert(7, strings(&["restate"]));
    game.anagram = Some(Anagram { scramble: "restate".to_string(), words });
    assert_eq!(game.hint_pool(), strings(&["rust", "tear", "stare"]));
    game.answers.insert(4, strings(&["tear"]));
    assert_eq!(game.hint_pool(), strings(&["rust", "stare"]));
    game.answers.insert(5, strings(&["stare", "STARE"]));
    game.answers.insert(4, strings(&["tear", "rust"]));
    assert_eq!(game.hint_pool(), Vec::<String>::new());
}

#[test]
fn the_dictionary_defines_words_in_any_case() {
    assert!(is_defined("rust"));
    assert!(is_defined("RUST"));
    assert!(!is_defined("zxqj"));
    assert!(!is_defined(""));
    assert_eq!(define("zxqj"), None);
    assert!(define("rust").unwrap().contains("iron"));
    assert_eq!(define("rust"), define("Rust"));
}

#[test]
fn may_hint_wants_a_definition_and_no_answer() {
    let mut game = round_with("restate");
    game.insert_entry(&"TEAR".to_string());
    assert!(game.may_hint(4, &"tear".to_string(), true));
    assert!(!game.may_hint(4, &"TEAR".to_string(), true));
    assert!(!game.may_hint(4, &"tear".to_string(), false));
    assert!(game.may_hint(5, &"TEAR".to_string(), true));
    assert!(game.may_hint(9, &"TEAR".to_string(), true));
    assert!(!game.may_hint(9, &"TEAR".to_string(), false));
}

#[test]
fn scrambles_keep_one_word_for_each_set_of_letters() {
    let list = "stare tears tea rates\ttaste state\nrestate stare";
    assert_eq!(Anagram::scrambles(list, 5), strings(&["stare", "taste"]));
    assert_eq!(Anagram::scrambles(list, 7), strings(&["restate"]));
    assert_eq!(Anagram::scrambles(list, 3), strings(&["tea"]));
    assert_eq!(Anagram::scrambles(list, 4), Vec::<String>::new());
    assert_eq!(Anagram::scrambles("", 4), Vec::<String>::new());
}

#[test]
fn from_base_scrambles_the_letters_and_finds_the_words() {
    let mut rng = RandomSource::from_seed(12);
    let anagram = Anagram::from_base(&"restate".to_string(), LIST, &mut rng);
    let mut letters: Vec<char> = anagram.scramble.chars().collect();
    letters.sort();
    assert_eq!(letters, vec!['a', 'e', 'e', 'r', 's', 't', 't']);
    assert_eq!(anagram.words, Anagram::words_from_scramble("restate", LIST));
}

#[test]
fn a_wrong_guess_is_flashed_in_the_first_free_row_of_its_section() {
    let mut game = round_with("restate");
    assert!(game.flashes(4, 0, 4));
    assert!(!game.flashes(4, 1, 4));
    assert!(!game.flashes(4, 0, 5));
    assert!(!game.flashes(9, 0, 9));
    game.insert_entry(&"TEAR".to_string());
    assert!(!game.flashes(4, 0, 4));
    assert!(game.flashes(4, 1, 4));
    assert!(!game.flashes(4, 2, 4));
    assert!(game.flashes(5, 0, 5));
}
