use std::io;
use wordle::players::PlayerInfo;

fn corrupt() -> io::Error {
    io::Error::new(io::ErrorKind::InvalidData, "Error: corrupt player data")
}

fn parsed(text: &str) -> Option<PlayerInfo> {
    PlayerInfo::from_str(text, corrupt).ok().flatten()
}

#[test]
fn from_str_is_parsed() {
    let player_data = "Username: player\n\
        Words Played: TRACE\n\
        Number of Guesses: 0,0,0,0,0,0\n\
        Maximum Win Streak: 0\n\
        Current Win Streak: 0";
    let bad_data_err = || io::Error::new(io::ErrorKind::InvalidData, "Error: corrupt player data");

    let player = PlayerInfo::from_str(player_data, bad_data_err).unwrap();

    let mut expected_player = PlayerInfo::new(String::from("player"));
    expected_player.add_lost_word(String::from("TRACE"));

    assert_eq!(player.unwrap(), expected_player);
}

#[test]
fn new_player_after_one_win() {
    let mut player = PlayerInfo::new(String::from("user"));
    player.add_won_word(String::from("TRACE"), 3);
    let expected = PlayerInfo::load(
        String::from("user"),
        vec![String::from("TRACE")],
        [0, 0, 1, 0, 0, 0],
        1,
        1,
    );
    assert_eq!(player, expected);
    assert_eq!(
        player.to_string(),
        "Username: user\n\
         Words Played: TRACE\n\
         Number of Guesses: 0,0,1,0,0,0\n\
         Maximum Win Streak: 1\n\
         Current Win Streak: 1\n"
    );
}

#[test]
fn new_player_is_written_with_no_words() {
    let player = PlayerInfo::new(String::from("user"));
    assert_eq!(player.get_username(), "user");
    assert_eq!(
        player.to_string(),
        "Username: user\n\
         Words Played: \n\
         Number of Guesses: 0,0,0,0,0,0\n\
         Maximum Win Streak: 0\n\
         Current Win Streak: 0\n"
    );
}

#[test]
fn new_player_is_read_back() {
    let player = PlayerInfo::new(String::from("user"));
    assert_eq!(parsed(&player.to_string()), Some(player));
}

#[test]
fn played_record_is_read_back() {
    let mut player = PlayerInfo::new(String::from("some: one"));
    player.add_won_word(String::from("TRACE"), 1);
    player.add_won_word(String::from("CRANE"), 6);
    player.add_lost_word(String::from("BEBOP"));
    player.add_won_word(String::from("ABBEY"), 4);
    let text = player.to_string();
    assert_eq!(
        text,
        "Username: some: one\n\
         Words Played: TRACE,CRANE,BEBOP,ABBEY\n\
         Number of Guesses: 1,0,0,1,0,1\n\
         Maximum Win Streak: 2\n\
         Current Win Streak: 1\n"
    );
    assert_eq!(parsed(&text), Some(player));
}

#[test]
fn loss_after_win_resets_the_current_streak_only() {
    let mut player = PlayerInfo::new(String::from("user"));
    player.add_won_word(String::from("TRACE"), 2);
    player.add_won_word(String::from("CRANE"), 2);
    player.add_lost_word(String::from("BEBOP"));
    let expected = PlayerInfo::load(
        String::from("user"),
        vec![String::from("TRACE"), String::from("CRANE"), String::from("BEBOP")],
        [0, 2, 0, 0, 0, 0],
        2,
        0,
    );
    assert_eq!(player, expected);
}

#[test]
fn a_word_is_played_once() {
    let mut player = PlayerInfo::new(String::from("user"));
    player.add_lost_word(String::from("TRACE"));
    player.add_won_word(String::from("TRACE"), 5);
    assert_eq!(
        player.to_string(),
        "Username: user\n\
         Words Played: TRACE\n\
         Number of Guesses: 0,0,0,0,1,0\n\
         Maximum Win Streak: 1\n\
         Current Win Streak: 1\n"
    );
}

#[test]
fn load_keeps_each_word_once() {
    let player = PlayerInfo::load(
        String::from("user"),
        vec![String::from("A"), String::from("B"), String::from("A")],
        [0; 6],
        0,
        0,
    );
    assert_eq!(
        player.to_string(),
        "Username: user\n\
         Words Played: A,B\n\
         Number of Guesses: 0,0,0,0,0,0\n\
         Maximum Win Streak: 0\n\
         Current Win Streak: 0\n"
    );
}

#[test]
fn equality_ignores_the_order_of_words() {
    let one = PlayerInfo::load(
        String::from("user"),
        vec![String::from("A"), String::from("B")],
        [0; 6],
        0,
        0,
    );
    let other = PlayerInfo::load(
        String::from("user"),
        vec![String::from("B"), String::from("A")],
        [0; 6],
        0,
        0,
    );
    let third = PlayerInfo::load(String::from("user"), vec![String::from("B")], [0; 6], 0, 0);
    assert_eq!(one, other);
    assert_ne!(one, third);
    assert_ne!(third, one);
}

#[test]
fn text_with_four_lines_is_corrupt() {
    let text = "Username: player\n\
        Words Played: TRACE\n\
        Number of Guesses: 0,0,0,0,0,0\n\
        Maximum Win Streak: 0\n";
    let err = PlayerInfo::from_str(text, corrupt).unwrap_err();
    assert_eq!(err.kind(), io::ErrorKind::InvalidData);
    assert_eq!(err.to_string(), "Error: corrupt player data");
}

#[test]
fn text_with_six_lines_is_corrupt() {
    let text = "Username: player\n\
        Words Played: TRACE\n\
        Number of Guesses: 0,0,0,0,0,0\n\
        Maximum Win Streak: 0\n\
        Current Win Streak: 0\n\
        Extra: 1\n";
    assert!(PlayerInfo::from_str(text, corrupt).is_err());
    assert!(PlayerInfo::from_str("", corrupt).is_err());
}

#[test]
fn line_without_delimiter_is_corrupt() {
    let text = "Username: player\n\
        Words Played TRACE\n\
        Number of Guesses: 0,0,0,0,0,0\n\
        Maximum Win Streak: 0\n\
        Current Win Streak: 0\n";
    assert!(PlayerInfo::from_str(text, corrupt).is_err());
    let text = "Username:player\n\
        Words Played: TRACE\n\
        Number of Guesses: 0,0,0,0,0,0\n\
        Maximum Win Streak: 0\n\
        Current Win Streak: 0\n";
    assert!(PlayerInfo::from_str(text, corrupt).is_err());
}

#[test]
fn bad_number_is_corrupt() {
    let text = "Username: player\n\
        Words Played: TRACE\n\
        Number of Guesses: 0,0,x,0,0,0\n\
        Maximum Win Streak: 0\n\
        Current Win Streak: 0\n";
    assert!(PlayerInfo::from_str(text, corrupt).is_err());
    let text = "Username: player\n\
        Words Played: TRACE\n\
        Number of Guesses: 0,0,0,0,0,0\n\
        Maximum Win Streak: -1\n\
        Current Win Streak: 0\n";
    assert!(PlayerInfo::from_str(text, corrupt).is_err());
    let text = "Username: player\n\
        Words Played: TRACE\n\
        Number of Guesses: 0,0,0,0,0,0\n\
        Maximum Win Streak: 0\n\
        Current Win Streak: \n";
    assert!(PlayerInfo::from_str(text, corrupt).is_err());
    let text = "Username: player\n\
        Words Played: TRACE\n\
        Number of Guesses: \n\
        Maximum Win Streak: 0\n\
        Current Win Streak: 0\n";
    assert!(PlayerInfo::from_str(text, corrupt).is_err());
}

#[test]
fn carriage_returns_end_lines_too() {
    let text = "Username: player\r\nWords Played: TRACE,CRANE\r\nNumber of Guesses: 1,2,3\r\n\
        Maximum Win Streak: 7\r\nCurrent Win Streak: +4\r\n";
    let expected = PlayerInfo::load(
        String::from("player"),
        vec![String::from("TRACE"), String::from("CRANE")],
        [1, 2, 3, 0, 0, 0],
        7,
        4,
    );
    assert_eq!(parsed(text), Some(expected));
}

#[test]
fn only_the_first_six_counters_are_kept() {
    let text = "Name: player\nWords: TRACE\nGuesses: 1,2,3,4,5,6,7,8\nMax: 7\nCur: 4";
    let expected = PlayerInfo::load(
        String::from("player"),
        vec![String::from("TRACE")],
        [1, 2, 3, 4, 5, 6],
        7,
        4,
    );
    assert_eq!(parsed(text), Some(expected));
}

#[test]
fn stats_of_a_new_player() {
    let player = PlayerInfo::new(String::from("user"));
    assert_eq!(
        player.get_stats(),
        "Number of Words Played: 0\n\
         Win Rate: 0%\n\
         Current Win Streak: 0\n\
         Maximum Win Streak: 0\n\
         Guess Distribution:\n\
         1:  0\n\
         2:  0\n\
         3:  0\n\
         4:  0\n\
         5:  0\n\
         6:  0"
    );
}

#[test]
fn stats_after_some_games() {
    let mut player = PlayerInfo::new(String::from("user"));
    player.add_won_word(String::from("AAAAA"), 3);
    player.add_won_word(String::from("BBBBB"), 3);
    player.add_won_word(String::from("CCCCC"), 3);
    player.add_won_word(String::from("DDDDD"), 3);
    player.add_won_word(String::from("EEEEE"), 3);
    player.add_won_word(String::from("FFFFF"), 3);
    player.add_won_word(String::from("GGGGG"), 3);
    player.add_won_word(String::from("HHHHH"), 3);
    player.add_won_word(String::from("IIIII"), 4);
    player.add_won_word(String::from("JJJJJ"), 4);
    player.add_won_word(String::from("KKKKK"), 4);
    player.add_won_word(String::from("LLLLL"), 6);
    player.add_lost_word(String::from("MMMMM"));
    player.add_won_word(String::from("NNNNN"), 1);
    player.add_lost_word(String::from("OOOOO"));
    assert_eq!(
        player.get_stats(),
        "Number of Words Played: 15\n\
         Win Rate: 87%\n\
         Current Win Streak: 0\n\
         Maximum Win Streak: 12\n\
         Guess Distribution:\n\
         1: == 1\n\
         2:  0\n\
         3: ============ 8\n\
         4: ===== 3\n\
         5:  0\n\
         6: == 1"
    );
}

#[test]
fn win_rate_rounds_a_half_up() {
    let player = PlayerInfo::load(
        String::from("user"),
        (0..8).map(|i| i.to_string()).collect(),
        [1, 0, 0, 0, 0, 0],
        1,
        0,
    );
    assert!(player.get_stats().contains("Win Rate: 13%"));
    let player = PlayerInfo::load(
        String::from("user"),
        (0..3).map(|i| i.to_string()).collect(),
        [1, 0, 0, 0, 0, 0],
        1,
        0,
    );
    assert!(player.get_stats().contains("Win Rate: 33%"));
}

#[test]
fn exhausted_dictionary_gives_no_word() {
    let mut player = PlayerInfo::new(String::from("user"));
    player.add_lost_word(String::from("TRACE"));
    let dictionary = vec![String::from("TRACE")];
    assert_eq!(player.get_random_word(&dictionary), None);
    assert_eq!(player.nth_unplayed_word(&dictionary, 0), None);
}

#[test]
fn random_word_is_an_unplayed_word_of_the_dictionary() {
    let mut player = PlayerInfo::new(String::from("user"));
    player.add_lost_word(String::from("TRACE"));
    player.add_lost_word(String::from("CRANE"));
    let dictionary = vec![
        String::from("TRACE"),
        String::from("ABBEY"),
        String::from("CRANE"),
        String::from("BEBOP"),
    ];
    for _ in 0..50 {
        let word = player.get_random_word(&dictionary).unwrap();
        assert!(word == "ABBEY" || word == "BEBOP");
    }
    assert_eq!(player.nth_unplayed_word(&dictionary, 0), Some("ABBEY"));
    assert_eq!(player.nth_unplayed_word(&dictionary, 1), Some("BEBOP"));
    assert_eq!(player.nth_unplayed_word(&dictionary, 2), None);
}

#[test]
fn random_word_of_a_single_unplayed_word() {
    let player = PlayerInfo::new(String::from("user"));
    let dictionary = vec![String::from("TRACE")];
    assert_eq!(player.get_random_word(&dictionary), Some("TRACE"));
}
