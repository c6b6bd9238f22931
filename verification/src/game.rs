//! One game: up to six guesses at a hidden word. The game is won with the
//! guess that matches the word, and lost after six guesses that do not.

use vstd::prelude::*;
use crate::dictionary::Dictionary;
use crate::players::{PlayerInfo, PlayerView};
use crate::scoring::{
    is_word, lemma_correct_iff_equal, score, win_message, win_message_text, WordleAnswer,
    WordleGuess,
};
use crate::text::{
    append_str, ascii_uppercase, chars_of, string_of, to_ascii_uppercase, trim, trimmed,
};

verus! {

/// The number of guesses that a game allows.
pub const MAX_GUESSES: usize = 6;

/// Why a line of input is no guess.
#[derive(Debug, Copy, Clone, PartialEq, Eq, Structural)]
pub enum GuessError {
    /// It is not five characters long.
    WrongLength,
    /// It is not a word of the dictionary.
    NotInDictionary,
}

impl GuessError {
    /// The words that tell the user what was wrong.
    pub open spec fn message_text(self) -> Seq<char> {
        match self {
            GuessError::WrongLength => "Error: guess must be 5 letters"@,
            GuessError::NotInDictionary => "Error: guess must be a word in the dictionary"@,
        }
    }

    /// The words that tell the user what was wrong.
    pub fn message(&self) -> (message: &'static str)
        ensures
            message@ == self.message_text(),
    {
        match self {
            GuessError::WrongLength => "Error: guess must be 5 letters",
            GuessError::NotInDictionary => "Error: guess must be a word in the dictionary",
        }
    }
}

/// How a game ended.
#[derive(Debug, Copy, Clone, PartialEq, Eq, Structural)]
pub enum GameOutcome {
    /// The word was guessed, with this number of guesses.
    Won(usize),
    /// Six guesses were made and none was the word.
    Lost,
}

/// The guess that a line of input stands for: the line in capitals,
/// without the white space around it.
pub open spec fn guess_text(input: Seq<char>) -> Seq<char> {
    trimmed(ascii_uppercase(input))
}

/// Reads a guess from a line of input. The guess must be five characters
/// long and a word of the dictionary.
pub fn read_guess(input: &str, dictionary: &Dictionary) -> (r: Result<String, GuessError>)
    ensures
        match r {
            Ok(guess) => guess@ == guess_text(input@) && dictionary@.contains(guess@) && is_word(
                guess@,
            ),
            Err(GuessError::WrongLength) => guess_text(input@).len() != 5,
            Err(GuessError::NotInDictionary) => guess_text(input@).len() == 5
                && !dictionary@.contains(guess_text(input@)),
        },
{
    let letters = trim(&to_ascii_uppercase(&chars_of(input)));
    if letters.len() != 5 {
        return Err(GuessError::WrongLength);
    }
    let guess = string_of(&letters);
    if dictionary.contains(guess.as_str()) {
        Ok(guess)
    } else {
        Err(GuessError::NotInDictionary)
    }
}

/// What a game holds.
pub struct GameView {
    /// The hidden word.
    pub answer: Seq<char>,
    /// The number of guesses made.
    pub attempts: nat,
    /// Whether the last guess was the word.
    pub won: bool,
}

impl GameView {
    /// Whether the game has ended.
    pub open spec fn is_over(self) -> bool {
        self.won || self.attempts >= MAX_GUESSES
    }

    /// How the game ended, if it has.
    pub open spec fn outcome(self) -> Option<GameOutcome> {
        if self.won {
            Some(GameOutcome::Won(self.attempts as usize))
        } else if self.attempts >= MAX_GUESSES {
            Some(GameOutcome::Lost)
        } else {
            None
        }
    }

    /// The game after one more guess.
    pub open spec fn after(self, guess: Seq<char>) -> GameView {
        GameView { answer: self.answer, attempts: self.attempts + 1, won: guess == self.answer }
    }

    /// The record of a player after this game, which has ended.
    pub open spec fn recorded(self, record: PlayerView) -> PlayerView {
        if self.won {
            record.won(self.answer, self.attempts as int)
        } else {
            record.lost(self.answer)
        }
    }

    /// The words that close the game: praise or regret, and the word.
    pub open spec fn closing_message(self) -> Seq<char> {
        if self.won {
            win_message_text(self.attempts as int) + "! The word was: "@ + self.answer
        } else {
            "Too bad! The word was: "@ + self.answer
        }
    }
}

/// A guess is judged all green exactly if it is the answer.
pub proof fn lemma_all_correct_iff_answer(answer: Seq<char>, guess: Seq<char>)
    requires
        answer.len() == guess.len(),
    ensures
        (forall|i: int| 0 <= i < guess.len() ==> score(answer, guess)[i] == WordleGuess::Correct)
            <==> guess == answer,
{
    if forall|i: int| 0 <= i < guess.len() ==> score(answer, guess)[i] == WordleGuess::Correct {
        assert forall|i: int| 0 <= i < guess.len() implies guess[i] == answer[i] by {
            lemma_correct_iff_equal(answer, guess, i);
        }
        assert(guess =~= answer);
    }
}

/// A game in progress or ended.
#[derive(Debug)]
pub struct Game {
    answer: WordleAnswer,
    attempts: usize,
    won: bool,
}

impl View for Game {
    type V = GameView;

    closed spec fn view(&self) -> GameView {
        GameView { answer: self.answer@, attempts: self.attempts as nat, won: self.won }
    }
}

impl Game {
    #[verifier::type_invariant]
    spec fn well_formed(&self) -> bool {
        self.attempts <= MAX_GUESSES && (self.won ==> self.attempts >= 1)
    }

    /// A new game on the given answer: no guess made.
    pub fn new(answer: WordleAnswer) -> (game: Game)
        ensures
            game@ == (GameView { answer: answer@, attempts: 0, won: false }),
            !game@.is_over(),
    {
        Game { answer, attempts: 0, won: false }
    }

    /// The answer of the game.
    pub fn answer(&self) -> (answer: &WordleAnswer)
        ensures
            answer@ == self@.answer,
    {
        &self.answer
    }

    /// The number of guesses made.
    pub fn attempts(&self) -> (n: usize)
        ensures
            n == self@.attempts,
            n <= MAX_GUESSES,
    {
        proof {
            use_type_invariant(self);
        }
        self.attempts
    }

    /// Tells whether the game has ended.
    pub fn is_over(&self) -> (over: bool)
        ensures
            over == self@.is_over(),
    {
        self.won || self.attempts >= MAX_GUESSES
    }

    /// How the game ended, if it has.
    pub fn outcome(&self) -> (outcome: Option<GameOutcome>)
        ensures
            outcome == self@.outcome(),
            outcome is Some <==> self@.is_over(),
            outcome matches Some(GameOutcome::Won(n)) ==> 1 <= n <= MAX_GUESSES,
    {
        proof {
            use_type_invariant(self);
        }
        if self.won {
            Some(GameOutcome::Won(self.attempts))
        } else if self.attempts >= MAX_GUESSES {
            Some(GameOutcome::Lost)
        } else {
            None
        }
    }

    /// Makes a guess and judges its letters. The game is won if the guess
    /// is the answer, and over after the sixth guess at the latest.
    pub fn guess(&mut self, guess: &str) -> (colors: [WordleGuess; 5])
        requires
            !old(self)@.is_over(),
            is_word(guess@),
        ensures
            colors@ == score(old(self)@.answer, guess@),
            final(self)@ == old(self)@.after(guess@),
            final(self)@.attempts <= MAX_GUESSES,
    {
        proof {
            use_type_invariant(&*self);
        }
        let _ = self.answer.get_word();
        let colors = self.answer.check_guess(guess);
        let mut all_correct = true;
        let mut i: usize = 0;
        while i < 5
            invariant
                i <= 5,
                all_correct == forall|j: int| 0 <= j < i ==> colors@[j] == WordleGuess::Correct,
            decreases 5 - i,
        {
            if colors[i] != WordleGuess::Correct {
                all_correct = false;
            }
            i += 1;
        }
        proof {
            lemma_all_correct_iff_answer(self.answer@, guess@);
        }
        self.attempts = self.attempts + 1;
        self.won = all_correct;
        colors
    }

    /// Tells whether the outcome of this game can be added to a record:
    /// the game has ended, and the counters that go up are not at the
    /// greatest number yet.
    pub fn can_record(&self, player: &PlayerInfo) -> (ok: bool)
        ensures
            ok == (self@.is_over() && (self@.won ==> player.has_room_for_win(
                self@.attempts as int,
            ))),
    {
        proof {
            use_type_invariant(self);
        }
        if self.won {
            player.can_add_won_word(self.attempts)
        } else {
            self.attempts >= MAX_GUESSES
        }
    }

    /// Adds the outcome of this game, which has ended, to the record of
    /// the player, and gives the words that close the game.
    pub fn record(&self, player: &mut PlayerInfo) -> (message: String)
        requires
            self@.is_over(),
            old(player)@.valid(),
            self@.won ==> old(player).has_room_for_win(self@.attempts as int),
        ensures
            final(player)@ == self@.recorded(old(player)@),
            final(player)@.valid(),
            message@ == self@.closing_message(),
    {
        proof {
            use_type_invariant(self);
        }
        let word = self.answer.get_word();
        let mut text: Vec<char> = Vec::new();
        if self.won {
            player.add_won_word(crate::text::owned(word), self.attempts);
            append_str(&mut text, win_message(self.attempts));
            append_str(&mut text, "! The word was: ");
        } else {
            player.add_lost_word(crate::text::owned(word));
            append_str(&mut text, "Too bad! The word was: ");
        }
        append_str(&mut text, word);
        assert(text@ =~= self@.closing_message());
        string_of(&text)
    }
}

} // verus!
