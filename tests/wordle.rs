use wordle::{score, Occurrence, WordList, Wordle, WordleError, WordleSettings};

fn settings(max_guesses: usize, words: &[&str], strict: bool) -> WordleSettings {
    WordleSettings {
        word_length: 5,
        max_guesses,
        word_list: WordList::Custom(words.iter().map(|w| w.to_string()).collect()),
        strict,
    }
}

fn game(secret: &str, max_guesses: usize, words: &[&str], strict: bool) -> Wordle {
    Wordle::with_secret(settings(max_guesses, words, strict), vec![], secret.to_string()).unwrap()
}

fn classes(secret: &str, guess: &str) -> Vec<Occurrence> {
    let s: Vec<char> = secret.chars().collect();
    let g: Vec<char> = guess.chars().collect();
    score(&s, &g).iter().map(|c| c.occurrence).collect()
}

fn code(c: char) -> Occurrence {
    match c {
        'c' => Occurrence::Correct,
        'w' => Occurrence::Wrong,
        'm' => Occurrence::Present,
        e => panic!("uhh what: {}", e),
    }
}

use Occurrence::{Correct, Present, Wrong};

#[test]
fn big_test_file() {
    let cases = [
        ("rises", "sises", "wcccc"),
        ("rises", "sibel", "mcwcw"),
        ("crane", "crane", "ccccc"),
        ("crane", "built", "wwwww"),
        ("abbey", "babes", "mmccw"),
        ("speed", "eerie", "mmwww"),
        ("those", "geese", "wwwcc"),
        ("lever", "eerie", "mcmww"),
    ];
    for (word, guess, correct) in cases {
        let mut game = game(word, 1, &[word], false);
        game.guess_word(guess.to_string()).unwrap();
        for i in 0..5 {
            let occurrence = code(correct.chars().nth(i).unwrap());
            assert_eq!(game.get_cell(0, i).unwrap().occurrence, occurrence);
        }
    }
}

#[test]
fn exact_match_is_all_correct() {
    for w in ["rises", "hello", "aaaaa", "zebra"] {
        assert_eq!(classes(w, w), vec![Correct; 5]);
    }
}

#[test]
fn disjoint_letters_are_all_wrong() {
    assert_eq!(classes("crane", "built"), vec![Wrong; 5]);
    assert_eq!(classes("abcde", "fghij"), vec![Wrong; 5]);
}

#[test]
fn duplicate_letters_rises_sises() {
    // both 's' of the secret are taken by exact matches, so the leading 's' is wrong
    assert_eq!(classes("rises", "sises"), vec![Wrong, Correct, Correct, Correct, Correct]);
    // a single 's' taken by an exact match leaves nothing for the others
    assert_eq!(classes("bossy", "sssss"), vec![Wrong, Wrong, Correct, Correct, Wrong]);
}

#[test]
fn mixed_rises_sibel() {
    assert_eq!(classes("rises", "sibel"), vec![Present, Correct, Wrong, Correct, Wrong]);
}

#[test]
fn excess_duplicates_are_wrong() {
    // one 'a' in the secret: only the leftmost unmatched 'a' of the guess is present
    assert_eq!(classes("plant", "aaxyz"), vec![Present, Wrong, Wrong, Wrong, Wrong]);
    // the exact match takes the only 'a'
    assert_eq!(classes("plant", "aaaaa"), vec![Wrong, Wrong, Correct, Wrong, Wrong]);
}

#[test]
fn score_keeps_letters() {
    let s: Vec<char> = "rises".chars().collect();
    let g: Vec<char> = "sibel".chars().collect();
    let letters: Vec<char> = score(&s, &g).iter().map(|c| c.letter).collect();
    assert_eq!(letters, g);
}

#[test]
fn queries_are_stable() {
    let mut g = game("rises", 3, &["rises"], false);
    g.guess_word("sibel".to_string()).unwrap();
    for _ in 0..3 {
        assert_eq!(g.guess_amount(), 1);
        assert!(!g.is_solved());
        assert!(!g.is_failed());
        assert_eq!(g.max_guesses(), 3);
        assert_eq!(g.word(), "rises");
    }
}

#[test]
fn guess_count_grows_by_one_per_accepted_guess() {
    let mut g = game("rises", 4, &["rises", "sibel"], true);
    assert_eq!(g.guess_amount(), 0);
    assert!(g.guess_word("toolong".to_string()).is_err());
    assert_eq!(g.guess_amount(), 0);
    assert!(g.guess_word("zzzzz".to_string()).is_err());
    assert_eq!(g.guess_amount(), 0);
    g.guess_word("sibel".to_string()).unwrap();
    assert_eq!(g.guess_amount(), 1);
    g.guess_word("sibel".to_string()).unwrap();
    assert_eq!(g.guess_amount(), 2);
}

#[test]
fn solved_on_last_guess_is_not_failed() {
    let mut g = game("rises", 2, &["rises"], false);
    g.guess_word("sibel".to_string()).unwrap();
    g.guess_word("rises".to_string()).unwrap();
    assert!(g.is_solved());
    assert!(!g.is_failed());
}

#[test]
fn exact_secret_wins() {
    let mut g = game("rises", 5, &["rises"], false);
    g.guess_word("rises".to_string()).unwrap();
    assert!(g.is_solved());
    for i in 0..5 {
        assert_eq!(g.get_cell(0, i).unwrap().occurrence, Correct);
    }
    assert!(matches!(g.guess_word("rises".to_string()), Err(WordleError::NoGuessesLeft { .. })));
    assert_eq!(g.guess_amount(), 1);
}

#[test]
fn guesses_are_trimmed_and_lowercased() {
    let mut g = game("rises", 5, &["rises"], true);
    g.guess_word("  RiSeS \n".to_string()).unwrap();
    assert!(g.is_solved());
    assert_eq!(g.get_cell(0, 0).unwrap().letter, 'r');
}

#[test]
fn exhaustion_fails_the_game() {
    let mut g = game("rises", 3, &["rises"], false);
    for _ in 0..3 {
        assert!(!g.is_failed());
        g.guess_word("sibel".to_string()).unwrap();
    }
    assert!(g.is_failed());
    assert!(!g.is_solved());
    match g.guess_word("sibel".to_string()) {
        Err(WordleError::NoGuessesLeft { word }) => assert_eq!(word, "rises"),
        other => panic!("unexpected {:?}", other),
    }
    assert_eq!(g.guess_amount(), 3);
}

#[test]
fn secret_is_drawn_from_the_list() {
    let words = ["crane", "slate", "rises", "sibel"];
    for _ in 0..50 {
        let g = Wordle::new(settings(5, &words, false), vec![]).unwrap();
        assert!(words.contains(&g.word()));
    }
    let g = Wordle::new(settings(5, &["alone"], false), vec![]).unwrap();
    assert_eq!(g.word(), "alone");
}

#[test]
fn builtin_list_is_the_one_handed_over() {
    let s = WordleSettings::default();
    let g = Wordle::new(s, vec!["audio".to_string()]).unwrap();
    assert_eq!(g.word(), "audio");
    assert_eq!(g.max_guesses(), 5);
}

#[test]
fn default_settings() {
    let s = WordleSettings::default();
    assert_eq!(s.word_length, 5);
    assert_eq!(s.max_guesses, 5);
    assert!(matches!(s.word_list, WordList::BuiltIn));
    assert!(!s.strict);
}

#[test]
fn wrong_length_is_refused() {
    let mut g = game("rises", 5, &["rises"], false);
    match g.guess_word("rise".to_string()) {
        Err(WordleError::WrongLength { expected }) => assert_eq!(expected, 5),
        other => panic!("unexpected {:?}", other),
    }
    assert_eq!(g.guess_amount(), 0);
}

#[test]
fn unknown_word_is_refused_when_strict() {
    let mut g = game("rises", 5, &["rises"], true);
    match g.guess_word(" Sibel".to_string()) {
        Err(WordleError::NotAWord { word }) => assert_eq!(word, "sibel"),
        other => panic!("unexpected {:?}", other),
    }
    assert_eq!(g.guess_amount(), 0);
    let mut p = game("rises", 5, &["rises"], false);
    assert!(p.guess_word("sibel".to_string()).is_ok());
}

#[test]
fn empty_list_is_refused() {
    assert!(matches!(
        Wordle::new(settings(5, &[], false), vec![]),
        Err(WordleError::EmptyWordList)
    ));
    assert!(matches!(
        Wordle::with_secret(settings(5, &[], false), vec![], "rises".to_string()),
        Err(WordleError::EmptyWordList)
    ));
}

#[test]
fn secret_of_wrong_length_is_refused() {
    match Wordle::with_secret(settings(5, &["rises"], false), vec![], "rise".to_string()) {
        Err(WordleError::SecretLength { expected, word }) => {
            assert_eq!(expected, 5);
            assert_eq!(word, "rise");
        }
        other => panic!("unexpected {:?}", other.is_ok()),
    }
    assert!(matches!(
        Wordle::new(settings(5, &["toolong"], false), vec![]),
        Err(WordleError::SecretLength { .. })
    ));
}

#[test]
fn cells_before_play_are_empty() {
    let mut g = game("rises", 2, &["rises"], false);
    assert!(g.get_cell(0, 0).is_none());
    g.guess_word("sibel".to_string()).unwrap();
    assert!(g.get_cell(0, 4).is_some());
    assert!(g.get_cell(0, 5).is_none());
    assert!(g.get_cell(1, 0).is_none());
}

#[test]
fn render_colours_each_cell() {
    let mut g = game("rises", 2, &["rises"], false);
    assert_eq!(g.render(), "[ ][ ][ ][ ][ ]\n[ ][ ][ ][ ][ ]\n");
    g.guess_word("sibel".to_string()).unwrap();
    let expected = format!(
        "[{}][{}][{}][{}][{}]\n[ ][ ][ ][ ][ ]\n",
        "\u{1b}[33ms\u{1b}[0m",
        "\u{1b}[32mi\u{1b}[0m",
        "\u{1b}[31mb\u{1b}[0m",
        "\u{1b}[32me\u{1b}[0m",
        "\u{1b}[31ml\u{1b}[0m"
    );
    assert_eq!(g.render(), expected);
}
