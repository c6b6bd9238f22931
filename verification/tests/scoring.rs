use wordle::scoring::{win_message, WordleAnswer, WordleGuess};

const G: WordleGuess = WordleGuess::Correct;
const Y: WordleGuess = WordleGuess::Present;
const X: WordleGuess = WordleGuess::Incorrect;

#[test]
fn lib_all_green() {
    let answer = WordleAnswer::new(String::from("ABCDE"));
    assert_eq!(answer.check_guess("ABCDE"), [G, G, G, G, G]);
}

#[test]
fn lib_all_yellow() {
    let answer = WordleAnswer::new(String::from("EABCD"));
    assert_eq!(answer.check_guess("ABCDE"), [Y, Y, Y, Y, Y]);
}

#[test]
fn lib_all_black() {
    let answer = WordleAnswer::new(String::from("FGHIJ"));
    assert_eq!(answer.check_guess("ABCDE"), [X, X, X, X, X]);
}

#[test]
fn lib_repeat_green() {
    let answer = WordleAnswer::new(String::from("AABBB"));
    assert_eq!(answer.check_guess("AACCC"), [G, G, X, X, X]);
}

#[test]
fn lib_repeat_yellow() {
    let answer = WordleAnswer::new(String::from("AABBB"));
    assert_eq!(answer.check_guess("CCAAC"), [X, X, Y, Y, X]);
}

#[test]
fn lib_repeat_some_green() {
    let answer = WordleAnswer::new(String::from("AABBB"));
    assert_eq!(answer.check_guess("CAACC"), [X, G, Y, X, X]);
}

#[test]
fn lib_repeat_some_yellow() {
    let answer = WordleAnswer::new(String::from("AZZAZ"));
    assert_eq!(answer.check_guess("AAABB"), [G, Y, X, X, X]);
}

#[test]
fn lib_green_no_yellow() {
    let answer = WordleAnswer::new(String::from("BACCC"));
    assert_eq!(answer.check_guess("AADDD"), [X, G, X, X, X]);
}

#[test]
fn wordle_all_green() {
    let answer = WordleAnswer::new("ABCDE".to_owned());
    assert_eq!(answer.check_guess("ABCDE"), [G, G, G, G, G]);
}

#[test]
fn wordle_all_yellow() {
    let answer = WordleAnswer::new("EABCD".to_owned());
    assert_eq!(answer.check_guess("ABCDE"), [Y, Y, Y, Y, Y]);
}

#[test]
fn wordle_all_black() {
    let answer = WordleAnswer::new("FGHIJ".to_owned());
    assert_eq!(answer.check_guess("ABCDE"), [X, X, X, X, X]);
}

#[test]
fn wordle_repeat_green() {
    let answer = WordleAnswer::new("AABBB".to_owned());
    assert_eq!(answer.check_guess("AACCC"), [G, G, X, X, X]);
}

#[test]
fn wordle_repeat_yellow() {
    let answer = WordleAnswer::new("AABBB".to_owned());
    assert_eq!(answer.check_guess("CCAAC"), [X, X, Y, Y, X]);
}

#[test]
fn wordle_repeat_some_green() {
    let answer = WordleAnswer::new("AABBB".to_owned());
    assert_eq!(answer.check_guess("CAACC"), [X, G, Y, X, X]);
}

#[test]
fn wordle_repeat_some_yellow() {
    let answer = WordleAnswer::new("AZZAZ".to_owned());
    assert_eq!(answer.check_guess("AAABB"), [G, Y, X, X, X]);
}

#[test]
fn wordle_green_no_yellow() {
    let answer = WordleAnswer::new("BACCC".to_owned());
    assert_eq!(answer.check_guess("AADDD"), [X, G, X, X, X]);
}

#[test]
fn trace_against_itself_is_all_green() {
    let answer = WordleAnswer::new(String::from("TRACE"));
    assert_eq!(answer.check_guess("TRACE"), [G, G, G, G, G]);
}

#[test]
fn trace_rotated_is_all_yellow() {
    let answer = WordleAnswer::new(String::from("TRACE"));
    assert_eq!(answer.check_guess("ETRAC"), [Y, Y, Y, Y, Y]);
}

#[test]
fn trace_against_blind_is_all_gray() {
    let answer = WordleAnswer::new(String::from("TRACE"));
    assert_eq!(answer.check_guess("BLIND"), [X, X, X, X, X]);
}

#[test]
fn marks_of_a_letter_never_exceed_its_copies() {
    let answer = WordleAnswer::new(String::from("AZZAZ"));
    let colors = answer.check_guess("AAAAA");
    let marked = colors.iter().filter(|c| **c != X).count();
    assert_eq!(marked, 2);
    assert_eq!(colors, [G, X, X, G, X]);
}

#[test]
fn green_is_given_exactly_where_letters_agree() {
    let answer = WordleAnswer::new(String::from("CRANE"));
    let guess = "CARNE";
    let colors = answer.check_guess(guess);
    let word: Vec<char> = answer.get_word().chars().collect();
    let letters: Vec<char> = guess.chars().collect();
    for i in 0..5 {
        assert_eq!(colors[i] == G, word[i] == letters[i]);
    }
    assert_eq!(colors, [G, Y, Y, G, G]);
}

#[test]
fn scoring_twice_gives_the_same_judgements() {
    let answer = WordleAnswer::new(String::from("AABBB"));
    assert_eq!(answer.check_guess("BABAB"), answer.check_guess("BABAB"));
    let again = WordleAnswer::new(String::from("AABBB"));
    assert_eq!(answer.check_guess("BABAB"), again.check_guess("BABAB"));
}

#[test]
fn get_word_returns_the_word() {
    let answer = WordleAnswer::new(String::from("TRACE"));
    assert_eq!(answer.get_word(), "TRACE");
    assert_eq!(answer.clone(), answer);
}

#[test]
fn valid_words_are_five_capital_letters() {
    assert!(WordleAnswer::is_valid_word("TRACE"));
    assert!(!WordleAnswer::is_valid_word("trace"));
    assert!(!WordleAnswer::is_valid_word("TRAC"));
    assert!(!WordleAnswer::is_valid_word("TRACES"));
    assert!(!WordleAnswer::is_valid_word("TR4CE"));
    assert!(!WordleAnswer::is_valid_word(""));
    assert!(!WordleAnswer::is_valid_word("TRAC\u{c9}"));
}

#[test]
fn judgements_are_written_as_one_letter() {
    assert_eq!(G.to_string(), "G");
    assert_eq!(Y.to_string(), "Y");
    assert_eq!(X.to_string(), "X");
}

#[test]
fn win_messages_go_from_genius_to_phew() {
    assert_eq!(win_message(1), "Genius");
    assert_eq!(win_message(2), "Magnificent");
    assert_eq!(win_message(3), "Impressive");
    assert_eq!(win_message(4), "Splendid");
    assert_eq!(win_message(5), "Great");
    assert_eq!(win_message(6), "Phew");
}
