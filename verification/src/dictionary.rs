//! The dictionary: the words that can be the answer of a game, and that a
//! guess must be one of.

use vstd::prelude::*;
use crate::players::{lemma_with_word_distinct, with_word};
use crate::scoring::{are_valid_letters, is_word};
use crate::text::{
    ascii_uppercase, chars_of, has_text, lines, lines_of, owned, string_of, texts_of,
    to_ascii_uppercase, views_of,
};

verus! {

/// The words among the given lines: each line that is five letters long,
/// in capitals, once, in the order of the lines.
pub open spec fn words_among(ls: Seq<Seq<char>>) -> Seq<Seq<char>>
    decreases ls.len(),
{
    if ls.len() == 0 {
        ls
    } else {
        let word = ascii_uppercase(ls.last());
        if is_word(word) {
            with_word(words_among(ls.drop_last()), word)
        } else {
            words_among(ls.drop_last())
        }
    }
}

/// Whether the given texts can be a dictionary: each is a word of five
/// capital letters, and none stands twice.
pub open spec fn is_dictionary(words: Seq<Seq<char>>) -> bool {
    words.no_duplicates() && forall|i: int| 0 <= i < words.len() ==> is_word(#[trigger] words[i])
}

/// The words among any lines can be a dictionary.
pub proof fn lemma_words_among(ls: Seq<Seq<char>>)
    ensures
        is_dictionary(words_among(ls)),
    decreases ls.len(),
{
    if ls.len() > 0 {
        let head = words_among(ls.drop_last());
        let word = ascii_uppercase(ls.last());
        lemma_words_among(ls.drop_last());
        lemma_with_word_distinct(head, word);
    }
}

/// A dictionary of words of five capital letters.
#[derive(Debug)]
pub struct Dictionary {
    words: Vec<String>,
}

impl View for Dictionary {
    type V = Seq<Seq<char>>;

    /// The words in their order.
    closed spec fn view(&self) -> Seq<Seq<char>> {
        texts_of(self.words@)
    }
}

impl Dictionary {
    #[verifier::type_invariant]
    spec fn well_formed(&self) -> bool {
        is_dictionary(texts_of(self.words@))
    }

    /// Reads a dictionary from a text with one word on each line. Lines
    /// that are not five letters long are left out; small letters count as
    /// their capitals.
    pub fn from_text(text: &str) -> (dictionary: Dictionary)
        ensures
            dictionary@ == words_among(lines(text@)),
            is_dictionary(dictionary@),
    {
        let all = lines_of(&chars_of(text));
        let ghost ls = lines(text@);
        let mut words: Vec<String> = Vec::new();
        let mut i: usize = 0;
        assert(ls.take(0) =~= Seq::empty());
        assert(texts_of(words@) =~= Seq::empty());
        while i < all.len()
            invariant
                i <= all.len(),
                views_of(all@) == ls,
                texts_of(words@) == words_among(ls.take(i as int)),
            decreases all.len() - i,
        {
            let letters = to_ascii_uppercase(&all[i]);
            let ghost before = texts_of(words@);
            assert(ls.take(i + 1).drop_last() =~= ls.take(i as int));
            assert(ls.take(i + 1).last() == all[i as int]@);
            if are_valid_letters(&letters) {
                let word = string_of(&letters);
                if !has_text(&words, &word) {
                    words.push(word);
                    assert(texts_of(words@) =~= before.push(letters@));
                }
            }
            i += 1;
        }
        assert(ls.take(i as int) =~= ls);
        proof {
            lemma_words_among(ls);
        }
        Dictionary { words }
    }

    /// The words of the dictionary.
    pub fn words(&self) -> (words: &Vec<String>)
        ensures
            texts_of(words@) == self@,
            is_dictionary(self@),
    {
        proof {
            use_type_invariant(self);
        }
        &self.words
    }

    /// The number of words.
    pub fn len(&self) -> (n: usize)
        ensures
            n == self@.len(),
    {
        self.words.len()
    }

    /// Tells whether a text is a word of the dictionary.
    pub fn contains(&self, word: &str) -> (found: bool)
        ensures
            found == self@.contains(word@),
            found ==> is_word(word@),
    {
        proof {
            use_type_invariant(self);
        }
        let wanted = owned(word);
        has_text(&self.words, &wanted)
    }
}

} // verus!
