//! Scoring of a guess against the hidden answer.
//!
//! Each letter of a guess is judged green (in the word, at that place),
//! yellow (in the word, at another place) or gray. A letter never gets
//! more green and yellow marks than the answer holds copies of it; green
//! marks are given first, yellow ones from left to right.

use vstd::prelude::*;
use crate::text::chars_of;

verus! {

/// The judgement of one letter of a guess.
#[derive(Debug, Copy, Clone, PartialEq, Eq, Structural)]
pub enum WordleGuess {
    /// Green: the letter is in the word at that position.
    Correct,
    /// Yellow: the letter is in the word, but not at that position.
    Present,
    /// Gray: the word holds no further copy of the letter.
    Incorrect,
}

/// Whether `c` is one of the capital letters `A` to `Z`.
pub open spec fn is_upper(c: char) -> bool {
    'A' <= c && c <= 'Z'
}

/// Whether `s` is a word of the game: five capital letters.
pub open spec fn is_word(s: Seq<char>) -> bool {
    s.len() == 5 && forall|i: int| 0 <= i < 5 ==> is_upper(#[trigger] s[i])
}

/// The place of a capital letter in the alphabet, from 0 for `A`.
pub open spec fn letter_index(c: char) -> int {
    c as int - 'A' as int
}

/// The number of positions below `n` at which `s` holds `c`.
pub open spec fn occurrences(s: Seq<char>, c: char, n: int) -> nat
    decreases n,
{
    if n <= 0 {
        0
    } else {
        occurrences(s, c, n - 1) + if s[n - 1] == c {
            1nat
        } else {
            0nat
        }
    }
}

/// The number of positions below `n` at which both `a` and `b` hold `c`.
pub open spec fn in_place(a: Seq<char>, b: Seq<char>, c: char, n: int) -> nat
    decreases n,
{
    if n <= 0 {
        0
    } else {
        in_place(a, b, c, n - 1) + if a[n - 1] == c && b[n - 1] == c {
            1nat
        } else {
            0nat
        }
    }
}

/// The number of positions below `n` at which `a` holds `c` and `b` does
/// not.
pub open spec fn off_place(a: Seq<char>, b: Seq<char>, c: char, n: int) -> nat
    decreases n,
{
    if n <= 0 {
        0
    } else {
        off_place(a, b, c, n - 1) + if a[n - 1] == c && b[n - 1] != c {
            1nat
        } else {
            0nat
        }
    }
}

/// The judgement of the letter at position `i` of `guess`.
///
/// A letter that matches the answer at its own position is green. Any
/// other letter is yellow as long as the copies of it in the answer that
/// no green mark has used up outnumber the copies of it that stand, not
/// green either, further left in the guess.
pub open spec fn verdict(answer: Seq<char>, guess: Seq<char>, i: int) -> WordleGuess {
    let c = guess[i];
    if c == answer[i] {
        WordleGuess::Correct
    } else if off_place(guess, answer, c, i) < off_place(answer, guess, c, answer.len() as int) {
        WordleGuess::Present
    } else {
        WordleGuess::Incorrect
    }
}

/// The judgements of all letters of `guess`, position by position.
pub open spec fn score(answer: Seq<char>, guess: Seq<char>) -> Seq<WordleGuess> {
    Seq::new(guess.len(), |i: int| verdict(answer, guess, i))
}

/// The number of positions below `n` at which `guess` holds `c` and is
/// judged `v`.
pub open spec fn judged(
    answer: Seq<char>,
    guess: Seq<char>,
    c: char,
    v: WordleGuess,
    n: int,
) -> nat
    decreases n,
{
    if n <= 0 {
        0
    } else {
        judged(answer, guess, c, v, n - 1) + if guess[n - 1] == c && score(answer, guess)[n - 1]
            == v {
            1nat
        } else {
            0nat
        }
    }
}

/// Every copy of a letter in `a` is either matched in place by `b` or not.
pub proof fn lemma_occurrences_split(a: Seq<char>, b: Seq<char>, c: char, n: int)
    ensures
        occurrences(a, c, n) == in_place(a, b, c, n) + off_place(a, b, c, n),
    decreases n,
{
    if n > 0 {
        lemma_occurrences_split(a, b, c, n - 1);
    }
}

/// Matching in place is mutual.
pub proof fn lemma_in_place_symmetric(a: Seq<char>, b: Seq<char>, c: char, n: int)
    ensures
        in_place(a, b, c, n) == in_place(b, a, c, n),
    decreases n,
{
    if n > 0 {
        lemma_in_place_symmetric(a, b, c, n - 1);
    }
}

/// The green marks of a letter are its matches in place, and its yellow
/// marks are as many as its misplaced copies in the guess, up to the
/// number of copies in the answer that no green mark has used.
pub proof fn lemma_marks_of_letter(answer: Seq<char>, guess: Seq<char>, c: char, n: int)
    requires
        0 <= n <= guess.len(),
    ensures
        judged(answer, guess, c, WordleGuess::Correct, n) == in_place(guess, answer, c, n),
        judged(answer, guess, c, WordleGuess::Present, n) == if off_place(guess, answer, c, n)
            < off_place(answer, guess, c, answer.len() as int) {
            off_place(guess, answer, c, n)
        } else {
            off_place(answer, guess, c, answer.len() as int)
        },
    decreases n,
{
    if n > 0 {
        lemma_marks_of_letter(answer, guess, c, n - 1);
        assert(score(answer, guess)[n - 1] == verdict(answer, guess, n - 1));
    }
}

/// For every letter, the green and yellow marks given to it together are
/// no more than the copies of it in the answer.
pub proof fn lemma_marks_bounded(answer: Seq<char>, guess: Seq<char>, c: char)
    requires
        answer.len() == guess.len(),
    ensures
        judged(answer, guess, c, WordleGuess::Correct, guess.len() as int) + judged(
            answer,
            guess,
            c,
            WordleGuess::Present,
            guess.len() as int,
        ) <= occurrences(answer, c, answer.len() as int),
{
    let n = guess.len() as int;
    lemma_marks_of_letter(answer, guess, c, n);
    lemma_in_place_symmetric(guess, answer, c, n);
    lemma_occurrences_split(answer, guess, c, n);
}

/// A position is green exactly where guess and answer hold the same
/// letter; such a position is never yellow or gray.
pub proof fn lemma_correct_iff_equal(answer: Seq<char>, guess: Seq<char>, i: int)
    requires
        0 <= i < guess.len(),
    ensures
        score(answer, guess)[i] == WordleGuess::Correct <==> guess[i] == answer[i],
{
}

/// The judgements depend on the letters of answer and guess alone.
pub proof fn lemma_score_deterministic(
    answer1: Seq<char>,
    guess1: Seq<char>,
    answer2: Seq<char>,
    guess2: Seq<char>,
)
    requires
        answer1 == answer2,
        guess1 == guess2,
    ensures
        score(answer1, guess1) == score(answer2, guess2),
{
}

impl WordleGuess {
    /// The one-letter form of a judgement: `G`, `Y` or `X`.
    pub open spec fn symbol(self) -> Seq<char> {
        match self {
            WordleGuess::Correct => seq!['G'],
            WordleGuess::Present => seq!['Y'],
            WordleGuess::Incorrect => seq!['X'],
        }
    }

    /// Writes the judgement as one letter.
    pub fn to_string(&self) -> (s: String)
        ensures
            s@ == self.symbol(),
    {
        proof {
            reveal_strlit("G");
            reveal_strlit("Y");
            reveal_strlit("X");
        }
        let s = match self {
            WordleGuess::Correct => "G".to_owned(),
            WordleGuess::Present => "Y".to_owned(),
            WordleGuess::Incorrect => "X".to_owned(),
        };
        assert(s@ =~= self.symbol());
        s
    }
}

/// The hidden word of a game, with the number of copies of each letter in
/// it, counted once so that each guess is scored in one pass.
#[derive(Debug, PartialEq, Eq)]
pub struct WordleAnswer {
    word: String,
    letter_counts: [u8; 26],
}

/// Whether `counts` holds, for each letter of the alphabet, the number of
/// its copies among the first `n` letters of `word`.
pub open spec fn counts_match(counts: Seq<u8>, word: Seq<char>, n: int) -> bool {
    counts.len() == 26 && forall|c: char|
        is_upper(c) ==> #[trigger] counts[letter_index(c)] == occurrences(word, c, n)
}

/// A count of copies among the first `n` positions is at most `n`.
pub proof fn lemma_occurrences_bounded(s: Seq<char>, c: char, n: int)
    requires
        0 <= n,
    ensures
        occurrences(s, c, n) <= n,
        in_place(s, s, c, n) <= n,
    decreases n,
{
    if n > 0 {
        lemma_occurrences_bounded(s, c, n - 1);
    }
}

/// Matches in place among more positions are no fewer.
pub proof fn lemma_in_place_monotone(a: Seq<char>, b: Seq<char>, c: char, m: int, n: int)
    requires
        m <= n,
    ensures
        in_place(a, b, c, m) <= in_place(a, b, c, n),
    decreases n - m,
{
    if m < n {
        lemma_in_place_monotone(a, b, c, m, n - 1);
    }
}

/// The copies of a letter that are left for yellow marks once `used` of
/// them are taken from the `free` ones.
pub open spec fn left_over(free: nat, used: nat) -> nat {
    if used < free {
        (free - used) as nat
    } else {
        0
    }
}

/// Tells whether the given characters are a word of the game: five
/// capital letters.
pub fn are_valid_letters(letters: &Vec<char>) -> (ok: bool)
    ensures
        ok == is_word(letters@),
{
    if letters.len() != 5 {
        return false;
    }
    let mut i: usize = 0;
    while i < 5
        invariant
            i <= 5,
            letters.len() == 5,
            forall|j: int| 0 <= j < i ==> is_upper(#[trigger] letters@[j]),
        decreases 5 - i,
    {
        let c = letters[i];
        if !('A' <= c && c <= 'Z') {
            assert(!is_upper(letters@[i as int]));
            return false;
        }
        i += 1;
    }
    true
}

/// The place of a capital letter in the alphabet.
fn index_of_letter(c: char) -> (k: usize)
    requires
        is_upper(c),
    ensures
        k == letter_index(c),
        k < 26,
{
    (c as u32 - 'A' as u32) as usize
}

impl View for WordleAnswer {
    type V = Seq<char>;

    /// The word itself.
    closed spec fn view(&self) -> Seq<char> {
        self.word@
    }
}

impl Clone for WordleAnswer {
    /// A copy with the same word.
    fn clone(&self) -> (copy: WordleAnswer)
        ensures
            copy@ == self@,
    {
        proof {
            use_type_invariant(self);
        }
        WordleAnswer { word: self.word.clone(), letter_counts: self.letter_counts }
    }
}

impl WordleAnswer {
    #[verifier::type_invariant]
    spec fn well_formed(&self) -> bool {
        is_word(self.word@) && counts_match(self.letter_counts@, self.word@, 5)
    }

    /// Tells whether a text is a word of the game: five capital letters.
    pub fn is_valid_word(word: &str) -> (ok: bool)
        ensures
            ok == is_word(word@),
    {
        are_valid_letters(&chars_of(word))
    }

    /// Makes the answer of a game from its word.
    pub fn new(word: String) -> (answer: WordleAnswer)
        requires
            is_word(word@),
        ensures
            answer@ == word@,
    {
        let letters = chars_of(word.as_str());
        let mut letter_counts: [u8; 26] = [0u8; 26];
        let mut i: usize = 0;
        while i < 5
            invariant
                i <= 5,
                letters@ == word@,
                is_word(word@),
                counts_match(letter_counts@, word@, i as int),
            decreases 5 - i,
        {
            let c = letters[i];
            let k = index_of_letter(c);
            proof {
                lemma_occurrences_bounded(word@, c, i as int);
            }
            let ghost before = letter_counts@;
            letter_counts[k] = letter_counts[k] + 1;
            i += 1;
            assert forall|d: char| is_upper(d) implies #[trigger] letter_counts@[letter_index(d)]
                == occurrences(word@, d, i as int) by {
                assert(before[letter_index(d)] == occurrences(word@, d, i - 1));
                if d != c {
                    assert(letter_index(d) != letter_index(c));
                }
            }
        }
        WordleAnswer { word, letter_counts }
    }

    /// The word of this answer.
    pub fn get_word(&self) -> (word: &str)
        ensures
            word@ == self@,
            is_word(self@),
    {
        proof {
            use_type_invariant(self);
        }
        self.word.as_str()
    }

    /// Judges each letter of a guess against this answer.
    pub fn check_guess(&self, guess: &str) -> (colors: [WordleGuess; 5])
        requires
            is_word(guess@),
        ensures
            colors@ == score(self@, guess@),
    {
        proof {
            use_type_invariant(self);
        }
        let answer = chars_of(self.word.as_str());
        let letters = chars_of(guess);
        let mut colors = [WordleGuess::Incorrect;5];
        let mut letter_counts = self.letter_counts;

        // Green letters first: each takes one copy of its letter.
        let mut i: usize = 0;
        while i < 5
            invariant
                i <= 5,
                is_word(answer@),
                is_word(letters@),
                letter_counts@.len() == 26,
                forall|c: char|
                    is_upper(c) ==> #[trigger] letter_counts@[letter_index(c)] + in_place(
                        answer@,
                        letters@,
                        c,
                        i as int,
                    ) == occurrences(answer@, c, 5),
                forall|j: int|
                    0 <= j < i ==> #[trigger] colors@[j] == if letters@[j] == answer@[j] {
                        WordleGuess::Correct
                    } else {
                        WordleGuess::Incorrect
                    },
                forall|j: int| i <= j < 5 ==> #[trigger] colors@[j] == WordleGuess::Incorrect,
            decreases 5 - i,
        {
            let g = letters[i];
            if answer[i] == g {
                let k = index_of_letter(g);
                proof {
                    lemma_in_place_monotone(answer@, letters@, g, i + 1, 5);
                    lemma_occurrences_split(answer@, letters@, g, 5);
                }
                let ghost before = letter_counts@;
                letter_counts[k] = letter_counts[k] - 1;
                colors[i] = WordleGuess::Correct;
                assert forall|c: char| is_upper(c) implies #[trigger] letter_counts@[letter_index(
                    c,
                )] + in_place(answer@, letters@, c, i + 1) == occurrences(answer@, c, 5) by {
                    assert(before[letter_index(c)] + in_place(answer@, letters@, c, i as int)
                        == occurrences(answer@, c, 5));
                    if c != g {
                        assert(letter_index(c) != letter_index(g));
                    }
                }
            }
            i += 1;
        }

        assert forall|c: char| is_upper(c) implies #[trigger] letter_counts@[letter_index(c)]
            == left_over(
            off_place(answer@, letters@, c, 5),
            off_place(letters@, answer@, c, 0),
        ) by {
            lemma_occurrences_split(answer@, letters@, c, 5);
        }

        // Then yellow letters, from the left, as long as copies are left.
        let mut i: usize = 0;
        while i < 5
            invariant
                i <= 5,
                is_word(answer@),
                is_word(letters@),
                letter_counts@.len() == 26,
                forall|c: char|
                    is_upper(c) ==> #[trigger] letter_counts@[letter_index(c)] == left_over(
                        off_place(answer@, letters@, c, 5),
                        off_place(letters@, answer@, c, i as int),
                    ),
                forall|j: int| 0 <= j < i ==> #[trigger] colors@[j] == verdict(answer@, letters@, j),
                forall|j: int|
                    i <= j < 5 ==> #[trigger] colors@[j] == if letters@[j] == answer@[j] {
                        WordleGuess::Correct
                    } else {
                        WordleGuess::Incorrect
                    },
            decreases 5 - i,
        {
            let g = letters[i];
            let ghost before = letter_counts@;
            if colors[i] == WordleGuess::Incorrect {
                let k = index_of_letter(g);
                assert(before[letter_index(g)] == left_over(
                    off_place(answer@, letters@, g, 5),
                    off_place(letters@, answer@, g, i as int),
                ));
                if letter_counts[k] > 0 {
                    colors[i] = WordleGuess::Present;
                    letter_counts[k] = letter_counts[k] - 1;
                }
            }
            assert(colors@[i as int] == verdict(answer@, letters@, i as int));
            assert forall|c: char| is_upper(c) implies #[trigger] letter_counts@[letter_index(
                c,
            )] == left_over(
                off_place(answer@, letters@, c, 5),
                off_place(letters@, answer@, c, i + 1),
            ) by {
                assert(before[letter_index(c)] == left_over(
                    off_place(answer@, letters@, c, 5),
                    off_place(letters@, answer@, c, i as int),
                ));
                if c != g {
                    assert(letter_index(c) != letter_index(g));
                }
            }
            i += 1;
        }
        assert(colors@ =~= score(self@, guess@));
        colors
    }
}

/// The praise for a game won with the given number of guesses.
pub open spec fn win_message_text(guesses_used: int) -> Seq<char> {
    if guesses_used == 1 {
        "Genius"@
    } else if guesses_used == 2 {
        "Magnificent"@
    } else if guesses_used == 3 {
        "Impressive"@
    } else if guesses_used == 4 {
        "Splendid"@
    } else if guesses_used == 5 {
        "Great"@
    } else {
        "Phew"@
    }
}

/// The praise for a game won with the given number of guesses, from
/// `Genius` for one to `Phew` for six.
pub fn win_message(guesses_used: usize) -> (message: &'static str)
    requires
        1 <= guesses_used <= 6,
    ensures
        message@ == win_message_text(guesses_used as int),
{
    if guesses_used == 1 {
        "Genius"
    } else if guesses_used == 2 {
        "Magnificent"
    } else if guesses_used == 3 {
        "Impressive"
    } else if guesses_used == 4 {
        "Splendid"
    } else if guesses_used == 5 {
        "Great"
    } else {
        "Phew"
    }
}

} // verus!
