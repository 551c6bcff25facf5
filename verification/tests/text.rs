use mints::command::{is_command, parse_command, read_command, Command};
use mints::game::{GAME_ONGOING, GAME_OVER, GAME_RESTART};
use mints::text::{
    contains_text, holds_word, is_word, left_for, letter_counts, lowered, only_letters,
    parse_number, parts_words, raised, same_chars, split_words, to_chars, to_lower, to_text,
    to_upper, Spaces,
};

fn chars(text: &str) -> Vec<char> {
    text.chars().collect()
}

fn words(text: &str, spaces: Spaces) -> Vec<String> {
    split_words(&chars(text), spaces).iter().map(|word| word.iter().collect()).collect()
}

#[test]
fn to_chars_and_to_text_keep_the_characters() {
    assert_eq!(to_chars("héllo ✓"), chars("héllo ✓"));
    assert_eq!(to_chars(""), Vec::<char>::new());
    assert_eq!(to_text(&chars("héllo ✓")), "héllo ✓");
    assert_eq!(to_text(&Vec::new()), "");
}

#[test]
fn contains_text_finds_runs_of_characters() {
    let hay = "CRANE".to_string();
    assert!(contains_text(&hay, &"CRANE".to_string()));
    assert!(contains_text(&hay, &"RAN".to_string()));
    assert!(contains_text(&hay, &"".to_string()));
    assert!(!contains_text(&hay, &"CRANES".to_string()));
    assert!(!contains_text(&hay, &"CAN".to_string()));
    assert!(!contains_text(&"RAN".to_string(), &hay));
}

#[test]
fn ascii_spaces_part_words() {
    assert_eq!(words("  !check 3\t4\n", Spaces::Ascii), vec!["!check", "3", "4"]);
    assert_eq!(words("one", Spaces::Ascii), vec!["one"]);
    assert_eq!(words("a\u{0C}b\rc", Spaces::Ascii), vec!["a", "b", "c"]);
    assert_eq!(words("", Spaces::Ascii), Vec::<String>::new());
    assert_eq!(words(" \t\n", Spaces::Ascii), Vec::<String>::new());
    assert_eq!(words("a\u{A0}b\u{0B}c", Spaces::Ascii), vec!["a\u{A0}b\u{0B}c"]);
}

#[test]
fn unicode_spaces_part_words() {
    assert_eq!(words("a\u{A0}b\u{0B}c\u{3000}d e", Spaces::Unicode), vec!["a", "b", "c", "d", "e"]);
    assert_eq!(words("a\u{200B}b", Spaces::Unicode), vec!["a\u{200B}b"]);
}

#[test]
fn split_words_agrees_with_std() {
    let text = " lorem\tipsum  dolor\u{2003}sit\u{85}amet\u{0B}x \u{1680}y\u{2028}z\u{205F}w ";
    let ascii: Vec<&str> = text.split_ascii_whitespace().collect();
    let unicode: Vec<&str> = text.split_whitespace().collect();
    assert_eq!(words(text, Spaces::Ascii), ascii);
    assert_eq!(words(text, Spaces::Unicode), unicode);
}

#[test]
fn parts_words_agrees_with_std_on_every_character() {
    for code in 0..=0x10FFFFu32 {
        if let Some(c) = char::from_u32(code) {
            assert_eq!(parts_words(c, Spaces::Ascii), c.is_ascii_whitespace(), "{code:x}");
            assert_eq!(parts_words(c, Spaces::Unicode), c.is_whitespace(), "{code:x}");
        }
    }
}

#[test]
fn case_changes_touch_ascii_letters_only() {
    assert_eq!(to_lower('A'), 'a');
    assert_eq!(to_lower('Z'), 'z');
    assert_eq!(to_lower('a'), 'a');
    assert_eq!(to_lower('['), '[');
    assert_eq!(to_lower('É'), 'É');
    assert_eq!(to_upper('a'), 'A');
    assert_eq!(to_upper('z'), 'Z');
    assert_eq!(to_upper('{'), '{');
    assert_eq!(to_upper('é'), 'é');
    assert_eq!(lowered(&chars("!ChEcK É")), chars("!check É"));
    assert_eq!(raised(&chars("crane é!")), chars("CRANE é!"));
    for code in 0..=0x10FFFFu32 {
        if let Some(c) = char::from_u32(code) {
            assert_eq!(to_lower(c), c.to_ascii_lowercase());
            assert_eq!(to_upper(c), c.to_ascii_uppercase());
        }
    }
}

#[test]
fn only_letters_wants_ascii_letters() {
    assert!(only_letters(&chars("Crane")));
    assert!(only_letters(&chars("")));
    assert!(!only_letters(&chars("cra ne")));
    assert!(!only_letters(&chars("cran3")));
    assert!(!only_letters(&chars("crané")));
}

#[test]
fn numbers_are_read_as_std_reads_them() {
    for text in [
        "0", "7", "42", "+42", "007", "", "+", "-1", " 1", "1 ", "12a", "++1", "1+",
        "18446744073709551615", "18446744073709551616", "99999999999999999999999", "٣",
    ] {
        assert_eq!(parse_number(&chars(text)), text.parse::<usize>().ok(), "{text:?}");
    }
    assert_eq!(parse_number(&chars("42")), Some(42));
    assert_eq!(parse_number(&chars("18446744073709551615")), Some(usize::MAX));
    assert_eq!(parse_number(&chars("18446744073709551616")), None);
}

#[test]
fn same_chars_and_is_word_compare_character_by_character() {
    assert!(same_chars(&chars("abc"), &chars("abc")));
    assert!(!same_chars(&chars("abc"), &chars("abd")));
    assert!(!same_chars(&chars("abc"), &chars("ab")));
    assert!(same_chars(&chars(""), &chars("")));
    assert!(is_word(&chars("!hint"), "!hint"));
    assert!(!is_word(&chars("!hint"), "!h"));
}

#[test]
fn holds_word_looks_for_the_whole_word() {
    let list = vec!["CRANE".to_string(), "SLATE".to_string()];
    assert!(holds_word(&list, &"SLATE".to_string()));
    assert!(!holds_word(&list, &"SLAT".to_string()));
    assert!(!holds_word(&Vec::new(), &"SLATE".to_string()));
}

#[test]
fn letter_counts_count_each_letter() {
    let counts = letter_counts(&chars("banana"));
    assert_eq!(left_for(&counts, 'a'), 3);
    assert_eq!(left_for(&counts, 'n'), 2);
    assert_eq!(left_for(&counts, 'b'), 1);
    assert_eq!(left_for(&counts, 'c'), 0);
}

#[test]
fn commands_are_whole_lines() {
    assert_eq!(parse_command("!hint"), Command::Hint);
    assert_eq!(parse_command("!h"), Command::Hint);
    for line in ["!restart", "!next", "!reset", "!r"] {
        assert_eq!(parse_command(line), Command::Restart);
    }
    for line in ["!quit", "!leave", "!exit", "!q"] {
        assert_eq!(parse_command(line), Command::Quit);
    }
    for line in ["", "!", "hint", "!hint ", " !hint", "!HINT", "!hints", "!quit now"] {
        assert_eq!(parse_command(line), Command::Unknown, "{line:?}");
    }
    assert_eq!(read_command(&chars("!q")), Command::Quit);
}

#[test]
fn commands_hand_back_their_codes() {
    assert_eq!((GAME_ONGOING, GAME_RESTART, GAME_OVER), (31, 32, 33));
    assert_eq!(Command::Hint.code(), GAME_ONGOING);
    assert_eq!(Command::Unknown.code(), GAME_ONGOING);
    assert_eq!(Command::Restart.code(), GAME_RESTART);
    assert_eq!(Command::Quit.code(), GAME_OVER);
}

#[test]
fn commands_start_with_a_bang() {
    assert!(is_command(&chars("!anything")));
    assert!(is_command(&chars("!")));
    assert!(!is_command(&chars("")));
    assert!(!is_command(&chars(" !hint")));
    assert!(!is_command(&chars("hint!")));
}

use mints::words::{sanitise_gpt_list, word_exists};

#[test]
fn sanitise_keeps_the_words_of_the_length_once_and_in_capitals() {
    let list = "crane slate\n  Crane\tpiano\r\nbrain's cran3 crané cranes SLATE\n";
    assert_eq!(sanitise_gpt_list(list, 5), vec!["CRANE", "SLATE", "PIANO"]);
    assert_eq!(sanitise_gpt_list(list, 6), vec!["CRANES"]);
    assert_eq!(sanitise_gpt_list(list, 4), Vec::<String>::new());
    assert_eq!(sanitise_gpt_list(list, 0), Vec::<String>::new());
    assert_eq!(sanitise_gpt_list(list, -1), Vec::<String>::new());
    assert_eq!(sanitise_gpt_list("", 5), Vec::<String>::new());
}

#[test]
fn word_exists_looks_through_every_list() {
    let lists = vec![
        vec!["CRANE".to_string()],
        Vec::new(),
        vec!["SLATE".to_string(), "PIANO".to_string()],
    ];
    assert!(word_exists(&lists, &"CRANE".to_string()));
    assert!(word_exists(&lists, &"PIANO".to_string()));
    assert!(!word_exists(&lists, &"BRAIN".to_string()));
    assert!(!word_exists(&Vec::new(), &"CRANE".to_string()));
}

use mints::random::RandomSource;

#[test]
fn scramble_puts_the_same_letters_in_another_order() {
    let letters = chars("abcdefgh");
    let mut moved = false;
    for seed in 0..20u64 {
        let mut rng = RandomSource::from_seed(seed);
        let scrambled = rng.scramble(&letters);
        moved = moved || scrambled != letters;
        let mut sorted = scrambled.clone();
        sorted.sort();
        assert_eq!(sorted, letters);
    }
    assert!(moved);
    let mut rng = RandomSource::from_seed(3);
    assert_eq!(rng.scramble(&Vec::new()), Vec::<char>::new());
    assert_eq!(rng.scramble(&chars("aaa")), chars("aaa"));
}

#[test]
fn pick_takes_one_of_the_items() {
    let mut rng = RandomSource::from_seed(4);
    let items = vec!["one".to_string(), "two".to_string()];
    for _ in 0..20 {
        assert!(items.contains(rng.pick(&items).unwrap()));
    }
    assert_eq!(rng.pick(&Vec::new()), None);
}

use mints::text::{file_number, WordSet};

#[test]
fn a_word_set_holds_what_was_added() {
    let mut set = WordSet::new();
    assert!(!set.holds(&"CRANE".to_string()));
    assert!(!set.holds(&"".to_string()));
    set.add("CRANE".to_string());
    set.add("SLATE".to_string());
    set.add("CRANE".to_string());
    set.add("".to_string());
    assert!(set.holds(&"CRANE".to_string()));
    assert!(set.holds(&"SLATE".to_string()));
    assert!(set.holds(&"".to_string()));
    assert!(!set.holds(&"crane".to_string()));
    assert!(!set.holds(&"CRAN".to_string()));
    for number in 0..2000 {
        set.add(number.to_string());
    }
    for number in 0..2000 {
        assert!(set.holds(&number.to_string()));
    }
    assert!(!set.holds(&"2000".to_string()));
}

#[test]
fn words_are_filed_by_their_characters() {
    assert_eq!(file_number(&chars("")), 0);
    assert_eq!(file_number(&chars("a")), 97);
    assert_eq!(file_number(&chars("ab")), 97 * 31 + 98);
    assert_eq!(file_number(&chars("zzzzzzzz")), 423_527_980);
    assert_eq!(file_number(&chars("\u{10FFFF}")), 0x10FFFF);
}

#[test]
fn sanitise_handles_long_lists() {
    let mut list = String::new();
    for round in 0..3 {
        for number in 10000..14000 {
            let word: String =
                number.to_string().chars().map(|c| (b'a' + (c as u8 - b'0')) as char).collect();
            list.push_str(&word);
            list.push(if (number + round) % 2 == 0 { ' ' } else { '\n' });
        }
    }
    let entries = sanitise_gpt_list(&list, 5);
    assert_eq!(entries.len(), 4000);
    assert_eq!(entries[0], "BAAAA");
    assert_eq!(entries[3999], "BDJJJ");
}
