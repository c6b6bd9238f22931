use wordle::dictionary::Dictionary;
use wordle::game::{read_guess, Game, GameOutcome, GuessError, MAX_GUESSES};
use wordle::players::PlayerInfo;
use wordle::scoring::{WordleAnswer, WordleGuess};

fn dictionary() -> Dictionary {
    Dictionary::from_text("TRACE\nCRANE\nBEBOP\nABBEY\n")
}

fn game_on(word: &str) -> Game {
    Game::new(WordleAnswer::new(String::from(word)))
}

#[test]
fn guess_is_read_in_capitals_without_white_space() {
    let dictionary = dictionary();
    assert_eq!(read_guess("trace\n", &dictionary), Ok(String::from("TRACE")));
    assert_eq!(read_guess("  Crane \r\n", &dictionary), Ok(String::from("CRANE")));
    assert_eq!(read_guess("BEBOP", &dictionary), Ok(String::from("BEBOP")));
}

#[test]
fn guess_must_be_five_letters() {
    let dictionary = dictionary();
    assert_eq!(read_guess("trac\n", &dictionary), Err(GuessError::WrongLength));
    assert_eq!(read_guess("traces\n", &dictionary), Err(GuessError::WrongLength));
    assert_eq!(read_guess("\n", &dictionary), Err(GuessError::WrongLength));
    assert_eq!(read_guess("tr ace\n", &dictionary), Err(GuessError::WrongLength));
}

#[test]
fn guess_must_be_in_the_dictionary() {
    let dictionary = dictionary();
    assert_eq!(read_guess("hello\n", &dictionary), Err(GuessError::NotInDictionary));
    assert_eq!(read_guess("12345\n", &dictionary), Err(GuessError::NotInDictionary));
}

#[test]
fn new_game_has_no_guess() {
    let game = game_on("TRACE");
    assert_eq!(game.attempts(), 0);
    assert!(!game.is_over());
    assert_eq!(game.outcome(), None);
    assert_eq!(game.answer().get_word(), "TRACE");
    assert_eq!(MAX_GUESSES, 6);
}

#[test]
fn game_is_won_with_the_guess_that_is_the_word() {
    let mut game = game_on("TRACE");
    assert_eq!(
        game.guess("CRANE"),
        [
            WordleGuess::Present,
            WordleGuess::Correct,
            WordleGuess::Correct,
            WordleGuess::Incorrect,
            WordleGuess::Correct
        ]
    );
    assert!(!game.is_over());
    assert_eq!(game.guess("BEBOP"), [WordleGuess::Incorrect, WordleGuess::Present, WordleGuess::Incorrect, WordleGuess::Incorrect, WordleGuess::Incorrect]);
    assert_eq!(game.guess("TRACE"), [WordleGuess::Correct; 5]);
    assert!(game.is_over());
    assert_eq!(game.attempts(), 3);
    assert_eq!(game.outcome(), Some(GameOutcome::Won(3)));
}

#[test]
fn game_is_lost_after_six_wrong_guesses() {
    let mut game = game_on("TRACE");
    for attempt in 1..=6 {
        assert!(!game.is_over());
        assert_eq!(game.outcome(), None);
        game.guess("CRANE");
        assert_eq!(game.attempts(), attempt);
    }
    assert!(game.is_over());
    assert_eq!(game.outcome(), Some(GameOutcome::Lost));
}

#[test]
fn game_is_won_with_the_sixth_guess() {
    let mut game = game_on("TRACE");
    for _ in 0..5 {
        game.guess("CRANE");
    }
    game.guess("TRACE");
    assert_eq!(game.outcome(), Some(GameOutcome::Won(6)));
    let mut player = PlayerInfo::new(String::from("user"));
    assert!(game.can_record(&player));
    assert_eq!(game.record(&mut player), "Phew! The word was: TRACE");
}

#[test]
fn won_game_is_recorded() {
    let mut game = game_on("TRACE");
    game.guess("TRACE");
    let mut player = PlayerInfo::new(String::from("user"));
    assert!(game.can_record(&player));
    assert_eq!(game.record(&mut player), "Genius! The word was: TRACE");
    let expected = PlayerInfo::load(
        String::from("user"),
        vec![String::from("TRACE")],
        [1, 0, 0, 0, 0, 0],
        1,
        1,
    );
    assert_eq!(player, expected);
}

#[test]
fn lost_game_is_recorded() {
    let mut game = game_on("TRACE");
    for _ in 0..6 {
        game.guess("ABBEY");
    }
    let mut player = PlayerInfo::new(String::from("user"));
    player.add_won_word(String::from("CRANE"), 2);
    assert!(game.can_record(&player));
    assert_eq!(game.record(&mut player), "Too bad! The word was: TRACE");
    let expected = PlayerInfo::load(
        String::from("user"),
        vec![String::from("CRANE"), String::from("TRACE")],
        [0, 1, 0, 0, 0, 0],
        1,
        0,
    );
    assert_eq!(player, expected);
}

#[test]
fn game_in_progress_cannot_be_recorded() {
    let mut game = game_on("TRACE");
    let player = PlayerInfo::new(String::from("user"));
    assert!(!game.can_record(&player));
    game.guess("CRANE");
    assert!(!game.can_record(&player));
}

#[test]
fn full_counter_cannot_take_a_win() {
    let mut game = game_on("TRACE");
    game.guess("TRACE");
    let full = PlayerInfo::load(String::from("user"), vec![], [usize::MAX, 0, 0, 0, 0, 0], 0, 0);
    assert!(!game.can_record(&full));
    assert!(!full.can_add_won_word(1));
    assert!(full.can_add_won_word(2));
    assert!(!full.can_add_won_word(0));
    assert!(!full.can_add_won_word(7));
    let streak = PlayerInfo::load(String::from("user"), vec![], [0; 6], usize::MAX, usize::MAX);
    assert!(!game.can_record(&streak));
}
