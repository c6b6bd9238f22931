//! The record of a player: the words played, the number of guesses that
//! each won game took, and the winning streaks; with its text form, from
//! which it is read back, and the statistics shown to the player.

use vstd::prelude::*;
use vstd::std_specs::cmp::PartialEqSpecImpl;
use crate::database::{
    entry_line, has_delim, item_read, items_of, lemma_entry_line, value_of, DatabaseEntry,
};
use crate::text::{
    append_chars, append_str, chars_of, decimal, format_decimal, has_text, is_plain_line, join,
    join_chars,
    lemma_decimal_is_plain, lemma_join_last, lemma_join_of_split, lemma_join_without,
    lemma_lines_of_terminated, lemma_parse_decimal_of_decimal, lemma_split_of_join,
    lemma_terminated_push, lemma_views_push, lines, lines_of, owned, parse_decimal_spec,
    parse_usize, split, string_of, strip_cr, terminated, texts_of, views_of, InvalidNumber,
};

verus! {

/// What a player's record holds.
pub struct PlayerView {
    /// The name of the player.
    pub username: Seq<char>,
    /// The words played, each once, in the order in which they came.
    pub words_played: Seq<Seq<char>>,
    /// For each number of guesses from one to six, the games won with it.
    pub num_guesses: Seq<usize>,
    /// The longest run of won games.
    pub max_win_streak: usize,
    /// The run of won games that the last game belongs to.
    pub cur_win_streak: usize,
}

/// The words with `word` added at the end, unless it is among them.
pub open spec fn with_word(words: Seq<Seq<char>>, word: Seq<char>) -> Seq<Seq<char>> {
    if words.contains(word) {
        words
    } else {
        words.push(word)
    }
}

/// The words of a list in their order, each kept where it first stands.
pub open spec fn distinct(words: Seq<Seq<char>>) -> Seq<Seq<char>>
    decreases words.len(),
{
    if words.len() == 0 {
        words
    } else {
        with_word(distinct(words.drop_last()), words.last())
    }
}

impl PlayerView {
    /// Whether this is what a record can hold: no word twice, and six
    /// counters.
    pub open spec fn valid(self) -> bool {
        self.words_played.no_duplicates() && self.num_guesses.len() == 6
    }

    /// The record of a player who has not played yet.
    pub open spec fn fresh(username: Seq<char>) -> PlayerView {
        PlayerView {
            username,
            words_played: Seq::empty(),
            num_guesses: Seq::new(6, |i: int| 0usize),
            max_win_streak: 0,
            cur_win_streak: 0,
        }
    }

    /// The record after a game on `word` that was won with `guesses`
    /// guesses.
    pub open spec fn won(self, word: Seq<char>, guesses: int) -> PlayerView {
        let streak = (self.cur_win_streak + 1) as usize;
        PlayerView {
            username: self.username,
            words_played: with_word(self.words_played, word),
            num_guesses: self.num_guesses.update(
                guesses - 1,
                (self.num_guesses[guesses - 1] + 1) as usize,
            ),
            max_win_streak: if self.max_win_streak < streak {
                streak
            } else {
                self.max_win_streak
            },
            cur_win_streak: streak,
        }
    }

    /// The record after a game on `word` that was lost.
    pub open spec fn lost(self, word: Seq<char>) -> PlayerView {
        PlayerView {
            username: self.username,
            words_played: with_word(self.words_played, word),
            num_guesses: self.num_guesses,
            max_win_streak: self.max_win_streak,
            cur_win_streak: 0,
        }
    }

    /// Whether two records are the same but for the order of their words.
    pub open spec fn same_as(self, other: PlayerView) -> bool {
        &&& self.username == other.username
        &&& self.words_played.to_set() == other.words_played.to_set()
        &&& self.num_guesses == other.num_guesses
        &&& self.max_win_streak == other.max_win_streak
        &&& self.cur_win_streak == other.cur_win_streak
    }
}

/// Adding a word keeps a list free of duplicates.
pub proof fn lemma_with_word_distinct(words: Seq<Seq<char>>, word: Seq<char>)
    requires
        words.no_duplicates(),
    ensures
        with_word(words, word).no_duplicates(),
        with_word(words, word).contains(word),
        forall|w: Seq<char>| words.contains(w) ==> with_word(words, word).contains(w),
{
    let out = with_word(words, word);
    if !words.contains(word) {
        assert(out[words.len() as int] == word);
        assert forall|i: int, j: int| 0 <= i < out.len() && 0 <= j < out.len() && i != j implies out[i]
            != out[j] by {
            if i < words.len() {
                assert(words.contains(words[i]));
            }
            if j < words.len() {
                assert(words.contains(words[j]));
            }
        }
        assert forall|w: Seq<char>| words.contains(w) implies out.contains(w) by {
            let i = choose|i: int| 0 <= i < words.len() && words[i] == w;
            assert(out[i] == w);
        }
    }
}

/// A list of distinct words holds no word twice, and is unchanged if it
/// held none twice before.
pub proof fn lemma_distinct(words: Seq<Seq<char>>)
    ensures
        distinct(words).no_duplicates(),
        words.no_duplicates() ==> distinct(words) == words,
        forall|w: Seq<char>| words.contains(w) <==> distinct(words).contains(w),
    decreases words.len(),
{
    if words.len() > 0 {
        let head = words.drop_last();
        let d = distinct(head);
        lemma_distinct(head);
        lemma_with_word_distinct(d, words.last());
        if words.no_duplicates() {
            assert(head.no_duplicates());
            if head.contains(words.last()) {
                let i = choose|i: int| 0 <= i < head.len() && head[i] == words.last();
                assert(words[i] == words[words.len() - 1]);
            }
            assert(head.push(words.last()) =~= words);
        }
        assert forall|w: Seq<char>| words.contains(w) <==> distinct(words).contains(w) by {
            if words.contains(w) {
                let i = choose|i: int| 0 <= i < words.len() && words[i] == w;
                if i < head.len() {
                    assert(head[i] == w);
                    assert(head.contains(w));
                }
            }
            if distinct(words).contains(w) {
                if d.contains(w) {
                    assert(head.contains(w));
                    let i = choose|i: int| 0 <= i < head.len() && head[i] == w;
                    assert(words[i] == w);
                } else {
                    assert(w == words.last()) by {
                        let i = choose|i: int|
                            0 <= i < distinct(words).len() && distinct(words)[i] == w;
                        if i < d.len() {
                            assert(d[i] == w);
                        }
                    }
                    assert(words[words.len() - 1] == w);
                }
            }
        }
    }
}

/// A lost game right after a won one ends the streak and leaves the
/// longest streak as the won game made it.
pub proof fn lemma_loss_after_win(
    record: PlayerView,
    won_word: Seq<char>,
    guesses: int,
    lost_word: Seq<char>,
)
    requires
        record.valid(),
        1 <= guesses <= 6,
    ensures
        record.won(won_word, guesses).lost(lost_word).cur_win_streak == 0,
        record.won(won_word, guesses).lost(lost_word).max_win_streak == record.won(
            won_word,
            guesses,
        ).max_win_streak,
{
}

/// The numerals of a sequence of numbers.
pub open spec fn numerals(counts: Seq<usize>) -> Seq<Seq<char>> {
    Seq::new(counts.len(), |i: int| decimal(counts[i] as nat))
}

/// The five lines of a record's text form: the name, the words played,
/// the counters of guesses, the longest streak and the current one.
pub open spec fn record_lines(record: PlayerView) -> Seq<Seq<char>> {
    seq![
        entry_line("Username"@, record.username),
        entry_line("Words Played"@, join(record.words_played, ',')),
        entry_line("Number of Guesses"@, join(numerals(record.num_guesses), ',')),
        entry_line("Maximum Win Streak"@, decimal(record.max_win_streak as nat)),
        entry_line("Current Win Streak"@, decimal(record.cur_win_streak as nat)),
    ]
}

/// The text form of a record: its five lines, each followed by a line
/// feed.
pub open spec fn record_text(record: PlayerView) -> Seq<char> {
    terminated(record_lines(record))
}

/// Whether each item of a list is a numeral of a `usize`.
pub open spec fn all_numerals(items: Seq<Seq<char>>) -> bool {
    forall|i: int| 0 <= i < items.len() ==> parse_decimal_spec(#[trigger] items[i]) is Some
}

/// The six counters that a list of numerals gives: its first six numbers,
/// and zero for each that is missing.
pub open spec fn counters_of(items: Seq<Seq<char>>) -> Seq<usize> {
    Seq::new(
        6,
        |i: int|
            if i < items.len() {
                parse_decimal_spec(items[i])->0
            } else {
                0usize
            },
    )
}

/// The words that the value of the line of words played lists: none for
/// an empty value, else the pieces between its commas, each once.
pub open spec fn words_of(value: Seq<char>) -> Seq<Seq<char>> {
    if value.len() == 0 {
        Seq::empty()
    } else {
        distinct(split(value, ','))
    }
}

/// Whether the given lines are the text form of a record: five lines,
/// each with a delimiter, with numerals wherever numbers are due. The
/// names of the fields are not looked at.
pub open spec fn is_record(ls: Seq<Seq<char>>) -> bool {
    &&& ls.len() == 5
    &&& forall|i: int| 0 <= i < 5 ==> has_delim(#[trigger] ls[i])
    &&& all_numerals(items_of(ls[2]))
    &&& parse_decimal_spec(value_of(ls[3])) is Some
    &&& parse_decimal_spec(value_of(ls[4])) is Some
}

/// The record that a text holds, if it is the text form of one.
pub open spec fn parse_record(data: Seq<char>) -> Option<PlayerView> {
    let ls = lines(data);
    if is_record(ls) {
        Some(
            PlayerView {
                username: value_of(ls[0]),
                words_played: words_of(value_of(ls[1])),
                num_guesses: counters_of(items_of(ls[2])),
                max_win_streak: parse_decimal_spec(value_of(ls[3]))->0,
                cur_win_streak: parse_decimal_spec(value_of(ls[4]))->0,
            },
        )
    } else {
        None
    }
}

/// Whether a record can be written and read back: its name is a plain
/// line; no word holds a comma or a line feed; the last word does not end
/// in a carriage return; and the words are not just the one empty word,
/// which is written as no word at all.
pub open spec fn storable(record: PlayerView) -> bool {
    &&& is_plain_line(record.username)
    &&& forall|i: int|
        0 <= i < record.words_played.len() ==> !(#[trigger] record.words_played[i]).contains(',')
            && !record.words_played[i].contains('\n')
    &&& record.words_played.len() > 0 ==> strip_cr(record.words_played.last())
        == record.words_played.last()
    &&& record.words_played != seq![Seq::<char>::empty()]
}

/// Whether a text can be the name of a field: it holds no colon and no
/// line feed.
pub open spec fn is_field_name(name: Seq<char>) -> bool {
    !name.contains(':') && !name.contains('\n')
}

/// The names of the five fields of a record are names of fields.
pub proof fn lemma_field_names()
    ensures
        is_field_name("Username"@),
        is_field_name("Words Played"@),
        is_field_name("Number of Guesses"@),
        is_field_name("Maximum Win Streak"@),
        is_field_name("Current Win Streak"@),
{
    reveal_strlit("Username");
    reveal_strlit("Words Played");
    reveal_strlit("Number of Guesses");
    reveal_strlit("Maximum Win Streak");
    reveal_strlit("Current Win Streak");
}

/// The line of an entry is plain if its name and value hold no line feed
/// and the value does not end in a carriage return.
pub proof fn lemma_entry_line_plain(name: Seq<char>, value: Seq<char>)
    requires
        !name.contains('\n'),
        is_plain_line(value),
    ensures
        is_plain_line(entry_line(name, value)),
{
    let line = entry_line(name, value);
    assert forall|k: int| 0 <= k < line.len() implies line[k] != '\n' by {
        if k < name.len() {
            assert(name.contains(line[k]));
        } else if k >= name.len() + 2 {
            assert(value[k - name.len() - 2] == line[k]);
            assert(value.contains(line[k]));
        }
    }
    if value.len() > 0 {
        assert(line.last() == value.last());
    } else {
        assert(line.last() == ' ');
    }
}

/// Writing a record and reading the text back gives the record.
pub proof fn lemma_record_round_trip(record: PlayerView)
    requires
        record.valid(),
        storable(record),
    ensures
        parse_record(record_text(record)) == Some(record),
{
    let ls = record_lines(record);
    let words = record.words_played;
    let words_text = join(words, ',');
    let counts = numerals(record.num_guesses);
    let counts_text = join(counts, ',');
    lemma_field_names();

    // The text of the words is a plain line.
    lemma_join_without(words, ',', '\n');
    if words.len() > 0 {
        lemma_join_last(words, ',');
    }
    assert(is_plain_line(words_text));

    // So is the text of the counters, whose items are numerals.
    assert forall|i: int| 0 <= i < counts.len() implies !(#[trigger] counts[i]).contains('\n')
        && !counts[i].contains(',') && parse_decimal_spec(counts[i]) == Some(
        record.num_guesses[i],
    ) by {
        lemma_decimal_is_plain(record.num_guesses[i] as nat);
        lemma_parse_decimal_of_decimal(record.num_guesses[i]);
    }
    lemma_join_without(counts, ',', '\n');
    lemma_join_last(counts, ',');
    lemma_decimal_is_plain(record.num_guesses[5] as nat);
    assert(counts.last() == decimal(record.num_guesses[5] as nat));
    assert(is_plain_line(counts_text)) by {
        crate::text::lemma_decimal_value(record.num_guesses[5] as nat);
        assert(decimal(record.num_guesses[5] as nat).contains(counts.last().last()));
    }

    lemma_decimal_is_plain(record.max_win_streak as nat);
    lemma_decimal_is_plain(record.cur_win_streak as nat);
    lemma_parse_decimal_of_decimal(record.max_win_streak);
    lemma_parse_decimal_of_decimal(record.cur_win_streak);

    // The five lines are read back as they were written.
    lemma_entry_line_plain("Username"@, record.username);
    lemma_entry_line_plain("Words Played"@, words_text);
    lemma_entry_line_plain("Number of Guesses"@, counts_text);
    lemma_entry_line_plain("Maximum Win Streak"@, decimal(record.max_win_streak as nat));
    lemma_entry_line_plain("Current Win Streak"@, decimal(record.cur_win_streak as nat));
    lemma_lines_of_terminated(ls);
    assert(lines(record_text(record)) == ls);

    // Each line splits into its name and its value.
    lemma_entry_line("Username"@, record.username);
    lemma_entry_line("Words Played"@, words_text);
    lemma_entry_line("Number of Guesses"@, counts_text);
    lemma_entry_line("Maximum Win Streak"@, decimal(record.max_win_streak as nat));
    lemma_entry_line("Current Win Streak"@, decimal(record.cur_win_streak as nat));

    // The counters are read back from their numerals.
    lemma_split_of_join(counts, ',');
    assert(items_of(ls[2]) == counts);
    assert(counters_of(counts) =~= record.num_guesses);

    // The words are read back, each once as before.
    lemma_distinct(words);
    if words.len() == 0 {
        assert(words =~= Seq::empty());
    } else {
        lemma_split_of_join(words, ',');
        if words.len() == 1 {
            assert(words =~= seq![words[0]]);
            assert(words[0].len() > 0);
        }
        assert(words_text.len() > 0);
    }
    assert(words_of(words_text) == words);
    assert(is_record(ls));
}

/// The quotient of `a` by `b` as the nearest whole number, a half rounded
/// up; zero where `b` is zero.
pub open spec fn rounded_ratio(a: nat, b: nat) -> nat {
    if b == 0 {
        0
    } else {
        (2 * a + b) / (2 * b)
    }
}

/// The sum of the first `n` counters.
pub open spec fn sum_of(counts: Seq<usize>, n: int) -> nat
    decreases n,
{
    if n <= 0 {
        0
    } else {
        sum_of(counts, n - 1) + counts[n - 1] as nat
    }
}

/// The greatest of the first `n` counters, zero for none.
pub open spec fn greatest_of(counts: Seq<usize>, n: int) -> nat
    decreases n,
{
    if n <= 0 {
        0
    } else if greatest_of(counts, n - 1) < counts[n - 1] {
        counts[n - 1] as nat
    } else {
        greatest_of(counts, n - 1)
    }
}

/// The share of played words that were won, in percent: a hundred times
/// the games won by the words played, as the nearest whole number and at
/// most the greatest `u32`; zero while no word was played.
pub open spec fn win_rate(record: PlayerView) -> nat {
    let rate = rounded_ratio(100 * sum_of(record.num_guesses, 6), record.words_played.len());
    if rate > u32::MAX {
        u32::MAX as nat
    } else {
        rate
    }
}

/// The length of the bar that stands for `count` where the greatest
/// counter is `most`: twelve for the greatest, the others in proportion;
/// none where every counter is zero.
pub open spec fn bar_length(count: usize, most: nat) -> nat {
    rounded_ratio(12 * count as nat, most)
}

/// A bar of the given length.
pub open spec fn bar(length: nat) -> Seq<char> {
    Seq::new(length, |i: int| '=')
}

/// The row of the distribution for games won with `place` guesses.
pub open spec fn stats_row(place: nat, count: usize, most: nat) -> Seq<char> {
    decimal(place) + seq![':', ' '] + bar(bar_length(count, most)) + seq![' '] + decimal(
        count as nat,
    )
}

/// The lines of the statistics of a record.
pub open spec fn stats_lines(record: PlayerView) -> Seq<Seq<char>> {
    let most = greatest_of(record.num_guesses, 6);
    seq![
        "Number of Words Played: "@ + decimal(record.words_played.len()),
        "Win Rate: "@ + decimal(win_rate(record)) + seq!['%'],
        "Current Win Streak: "@ + decimal(record.cur_win_streak as nat),
        "Maximum Win Streak: "@ + decimal(record.max_win_streak as nat),
        "Guess Distribution:"@,
        stats_row(1, record.num_guesses[0], most),
        stats_row(2, record.num_guesses[1], most),
        stats_row(3, record.num_guesses[2], most),
        stats_row(4, record.num_guesses[3], most),
        stats_row(5, record.num_guesses[4], most),
        stats_row(6, record.num_guesses[5], most),
    ]
}

/// The statistics of a record as shown to the player: the lines with a
/// line feed between each two.
pub open spec fn stats_text(record: PlayerView) -> Seq<char> {
    join(stats_lines(record), '\n')
}

/// The win rate of a record without played words is zero.
pub proof fn lemma_win_rate_without_words(record: PlayerView)
    requires
        record.words_played.len() == 0,
    ensures
        win_rate(record) == 0,
{
}

/// No bar is longer than twelve.
pub proof fn lemma_bar_length_bounded(counts: Seq<usize>, i: int)
    requires
        0 <= i < 6,
    ensures
        counts[i] <= greatest_of(counts, 6),
        bar_length(counts[i], greatest_of(counts, 6)) <= 12,
{
    reveal_with_fuel(greatest_of, 7);
    let most = greatest_of(counts, 6);
    let count = counts[i] as nat;
    if most > 0 {
        assert((2 * (12 * count) + most) / (2 * most) <= 12) by (nonlinear_arith)
            requires
                count <= most,
                most > 0,
        ;
    }
}

/// Divides and rounds to the nearest whole number, a half up.
fn round_div(a: u128, b: u128) -> (q: u128)
    requires
        b > 0,
        2 * a + b <= u128::MAX,
        2 * b <= u128::MAX,
    ensures
        q == rounded_ratio(a as nat, b as nat),
{
    (2 * a + b) / (2 * b)
}

/// A label followed by a value.
fn labelled(label: &str, value: &Vec<char>) -> (out: Vec<char>)
    ensures
        out@ == label@ + value@,
{
    let mut out: Vec<char> = Vec::new();
    append_str(&mut out, label);
    append_chars(&mut out, value);
    assert(out@ =~= label@ + value@);
    out
}

/// Writes a row of the distribution.
fn format_row(place: usize, count: usize, most: usize) -> (out: Vec<char>)
    requires
        count <= most,
    ensures
        out@ == stats_row(place as nat, count, most as nat),
{
    let length: u128 = if most == 0 {
        0
    } else {
        round_div(12 * (count as u128), most as u128)
    };
    let mut out = format_decimal(place);
    out.push(':');
    out.push(' ');
    let ghost head = out@;
    let mut i: u128 = 0;
    while i < length
        invariant
            i <= length,
            out@ == head + bar(i as nat),
        decreases length - i,
    {
        out.push('=');
        i += 1;
        assert(out@ =~= head + bar(i as nat));
    }
    out.push(' ');
    append_chars(&mut out, &format_decimal(count));
    assert(out@ =~= stats_row(place as nat, count, most as nat));
    out
}

/// The words of a dictionary that are not among the played ones, in the
/// order of the dictionary.
pub open spec fn unplayed(dictionary: Seq<Seq<char>>, played: Seq<Seq<char>>) -> Seq<Seq<char>> {
    dictionary.filter(|word: Seq<char>| !played.contains(word))
}

/// One more word at the end of a dictionary is one more unplayed word,
/// unless it was played.
pub proof fn lemma_unplayed_push(
    dictionary: Seq<Seq<char>>,
    played: Seq<Seq<char>>,
    word: Seq<char>,
)
    ensures
        unplayed(dictionary.push(word), played) == if played.contains(word) {
            unplayed(dictionary, played)
        } else {
            unplayed(dictionary, played).push(word)
        },
{
    reveal(Seq::filter);
    assert(dictionary.push(word).drop_last() =~= dictionary);
}

/// An unplayed word is a word of the dictionary that was not played.
pub proof fn lemma_unplayed_member(
    dictionary: Seq<Seq<char>>,
    played: Seq<Seq<char>>,
    i: int,
)
    requires
        0 <= i < unplayed(dictionary, played).len(),
    ensures
        dictionary.contains(unplayed(dictionary, played)[i]),
        !played.contains(unplayed(dictionary, played)[i]),
    decreases dictionary.len(),
{
    if dictionary.len() == 0 {
        reveal(Seq::filter);
    } else {
        let head = dictionary.drop_last();
        let word = dictionary.last();
        assert(head.push(word) =~= dictionary);
        lemma_unplayed_push(head, played, word);
        if i < unplayed(head, played).len() {
            lemma_unplayed_member(head, played, i);
            let k = choose|k: int| 0 <= k < head.len() && head[k] == unplayed(head, played)[i];
            assert(dictionary[k] == unplayed(dictionary, played)[i]);
        } else {
            assert(dictionary[dictionary.len() - 1] == word);
        }
    }
}

/// `fastrand::usize` on the range from zero up to, and without, `n`: some
/// number of that range, which may differ from call to call. The range
/// must not be empty, or the call would panic.
#[verifier::external_body]
fn random_below(n: usize) -> (r: usize)
    requires
        n > 0,
    ensures
        r < n,
{
    fastrand::usize(0..n)
}

/// Appends the line of an entry, and a line feed, to a text.
fn push_entry(out: &mut Vec<char>, name: &str, value: &Vec<char>)
    ensures
        final(out)@ == old(out)@ + entry_line(name@, value@) + seq!['\n'],
{
    append_str(out, name);
    out.push(':');
    out.push(' ');
    append_chars(out, value);
    out.push('\n');
    assert(out@ =~= old(out)@ + entry_line(name@, value@) + seq!['\n']);
}

/// The record of one player.
#[derive(Debug)]
pub struct PlayerInfo {
    username: String,
    words_played: Vec<String>,
    num_guesses: [usize; 6],
    max_win_streak: usize,
    cur_win_streak: usize,
}

impl View for PlayerInfo {
    type V = PlayerView;

    closed spec fn view(&self) -> PlayerView {
        PlayerView {
            username: self.username@,
            words_played: texts_of(self.words_played@),
            num_guesses: self.num_guesses@,
            max_win_streak: self.max_win_streak,
            cur_win_streak: self.cur_win_streak,
        }
    }
}

impl PlayerInfo {
    /// The record of a new player: no word played, no game won.
    pub fn new(username: String) -> (player: PlayerInfo)
        ensures
            player@ == PlayerView::fresh(username@),
            player@.valid(),
    {
        let player = PlayerInfo {
            username,
            words_played: Vec::new(),
            num_guesses: [0usize;6],
            max_win_streak: 0,
            cur_win_streak: 0,
        };
        assert(player@.words_played =~= Seq::empty());
        assert(player@.num_guesses =~= Seq::new(6, |i: int| 0usize));
        player
    }

    /// The record with the given contents. Of a word that is listed more
    /// than once, the first is kept.
    pub fn load(
        username: String,
        words_played: Vec<String>,
        num_guesses: [usize; 6],
        max_win_streak: usize,
        cur_win_streak: usize,
    ) -> (player: PlayerInfo)
        ensures
            player@ == (PlayerView {
                username: username@,
                words_played: distinct(texts_of(words_played@)),
                num_guesses: num_guesses@,
                max_win_streak,
                cur_win_streak,
            }),
            player@.valid(),
    {
        let mut words: Vec<String> = Vec::new();
        let mut i: usize = 0;
        assert(texts_of(words_played@).take(0) =~= Seq::empty());
        assert(texts_of(words@) =~= Seq::empty());
        while i < words_played.len()
            invariant
                i <= words_played.len(),
                texts_of(words@) == distinct(texts_of(words_played@).take(i as int)),
                texts_of(words@).no_duplicates(),
            decreases words_played.len() - i,
        {
            let ghost before = texts_of(words@);
            let ghost all = texts_of(words_played@);
            assert(all.take(i + 1).drop_last() =~= all.take(i as int));
            assert(all.take(i + 1).last() == words_played[i as int]@);
            proof {
                lemma_with_word_distinct(before, words_played[i as int]@);
            }
            if !has_text(&words, &words_played[i]) {
                words.push(words_played[i].clone());
                assert(texts_of(words@) =~= before.push(words_played[i as int]@));
            }
            i += 1;
        }
        assert(texts_of(words_played@).take(i as int) =~= texts_of(words_played@));
        PlayerInfo { username, words_played: words, num_guesses, max_win_streak, cur_win_streak }
    }

    /// The name of the player.
    pub fn get_username(&self) -> (name: &str)
        ensures
            name@ == self@.username,
    {
        self.username.as_str()
    }

    /// Whether a game won with `guesses` guesses can be added: the counter
    /// of that number of guesses and the current streak are not at the
    /// greatest number yet.
    pub open spec fn has_room_for_win(&self, guesses: int) -> bool {
        &&& 1 <= guesses <= 6
        &&& self@.num_guesses[guesses - 1] < usize::MAX
        &&& self@.cur_win_streak < usize::MAX
    }

    /// Tells whether a game won with `num_guesses` guesses can be added.
    pub fn can_add_won_word(&self, num_guesses: usize) -> (ok: bool)
        ensures
            ok == self.has_room_for_win(num_guesses as int),
    {
        1 <= num_guesses && num_guesses <= 6 && self.num_guesses[num_guesses - 1] < usize::MAX
            && self.cur_win_streak < usize::MAX
    }

    /// Records a game on `word` that the player won with `num_guesses`
    /// guesses: the word counts as played, the counter of that number of
    /// guesses goes up by one, and so does the current streak, which the
    /// longest streak then is no shorter than.
    pub fn add_won_word(&mut self, word: String, num_guesses: usize)
        requires
            old(self)@.valid(),
            old(self).has_room_for_win(num_guesses as int),
        ensures
            final(self)@ == old(self)@.won(word@, num_guesses as int),
            final(self)@.valid(),
            final(self)@.cur_win_streak <= final(self)@.max_win_streak,
    {
        proof {
            lemma_with_word_distinct(texts_of(self.words_played@), word@);
        }
        let ghost before = texts_of(self.words_played@);
        if !has_text(&self.words_played, &word) {
            self.words_played.push(word);
            assert(texts_of(self.words_played@) =~= before.push(word@));
        }
        self.num_guesses[num_guesses - 1] = self.num_guesses[num_guesses - 1] + 1;
        self.cur_win_streak = self.cur_win_streak + 1;
        if self.max_win_streak < self.cur_win_streak {
            self.max_win_streak = self.cur_win_streak;
        }
        assert(self@.num_guesses =~= old(self)@.won(word@, num_guesses as int).num_guesses);
    }

    /// Records a game on `word` that the player lost: the word counts as
    /// played and the current streak is over. The counters of guesses stay
    /// as they are.
    pub fn add_lost_word(&mut self, word: String)
        requires
            old(self)@.valid(),
        ensures
            final(self)@ == old(self)@.lost(word@),
            final(self)@.valid(),
            final(self)@.cur_win_streak <= final(self)@.max_win_streak,
    {
        proof {
            lemma_with_word_distinct(texts_of(self.words_played@), word@);
        }
        let ghost before = texts_of(self.words_played@);
        if !has_text(&self.words_played, &word) {
            self.words_played.push(word);
            assert(texts_of(self.words_played@) =~= before.push(word@));
        }
        self.cur_win_streak = 0;
    }

    /// Writes the record in its text form.
    pub fn to_string(&self) -> (text: String)
        ensures
            text@ == record_text(self@),
    {
        let mut words: Vec<Vec<char>> = Vec::new();
        let mut i: usize = 0;
        while i < self.words_played.len()
            invariant
                i <= self.words_played.len(),
                views_of(words@) == texts_of(self.words_played@).take(i as int),
            decreases self.words_played.len() - i,
        {
            let word = chars_of(self.words_played[i].as_str());
            proof {
                lemma_views_push(words@, word);
            }
            words.push(word);
            i += 1;
            assert(views_of(words@) =~= texts_of(self.words_played@).take(i as int));
        }
        assert(texts_of(self.words_played@).take(i as int) =~= texts_of(self.words_played@));

        let mut counts: Vec<Vec<char>> = Vec::new();
        let mut k: usize = 0;
        while k < 6
            invariant
                k <= 6,
                views_of(counts@) == numerals(self.num_guesses@).take(k as int),
            decreases 6 - k,
        {
            let count = format_decimal(self.num_guesses[k]);
            proof {
                lemma_views_push(counts@, count);
            }
            counts.push(count);
            k += 1;
            assert(views_of(counts@) =~= numerals(self.num_guesses@).take(k as int));
        }
        assert(numerals(self.num_guesses@).take(6) =~= numerals(self.num_guesses@));

        let ghost lines = record_lines(self@);
        let mut out: Vec<char> = Vec::new();
        push_entry(&mut out, "Username", &chars_of(self.username.as_str()));
        push_entry(&mut out, "Words Played", &join_chars(&words, ','));
        push_entry(&mut out, "Number of Guesses", &join_chars(&counts, ','));
        push_entry(&mut out, "Maximum Win Streak", &format_decimal(self.max_win_streak));
        push_entry(&mut out, "Current Win Streak", &format_decimal(self.cur_win_streak));
        proof {
            let none = Seq::<Seq<char>>::empty();
            lemma_terminated_push(none, lines[0]);
            lemma_terminated_push(none.push(lines[0]), lines[1]);
            lemma_terminated_push(none.push(lines[0]).push(lines[1]), lines[2]);
            lemma_terminated_push(none.push(lines[0]).push(lines[1]).push(lines[2]), lines[3]);
            lemma_terminated_push(
                none.push(lines[0]).push(lines[1]).push(lines[2]).push(lines[3]),
                lines[4],
            );
            assert(none.push(lines[0]).push(lines[1]).push(lines[2]).push(lines[3]).push(lines[4])
                =~= lines);
            assert(out@ =~= terminated(lines));
        }
        string_of(&out)
    }

    /// Reads a record from its text form. A text that is not the text form
    /// of a record gives the error that `bad_data_err` makes.
    pub fn from_str<E, F: Fn() -> E>(player_data: &str, bad_data_err: F) -> (r: Result<
        Option<PlayerInfo>,
        E,
    >)
        requires
            call_requires(bad_data_err, ()),
        ensures
            match r {
                Ok(Some(player)) => parse_record(player_data@) == Some(player@) && player@.valid(),
                Ok(None) => false,
                Err(e) => parse_record(player_data@) is None && call_ensures(bad_data_err, (), e),
            },
    {
        let chars = chars_of(player_data);
        let lines_in_file = lines_of(&chars);
        let ghost ls = lines(player_data@);
        if lines_in_file.len() != 5 {
            return Err(bad_data_err());
        }
        let line0 = string_of(&lines_in_file[0]);
        let line1 = string_of(&lines_in_file[1]);
        let line2 = string_of(&lines_in_file[2]);
        let line3 = string_of(&lines_in_file[3]);
        let line4 = string_of(&lines_in_file[4]);
        assert(line0@ == ls[0] && line1@ == ls[1] && line2@ == ls[2] && line3@ == ls[3] && line4@
            == ls[4]);

        let username = match DatabaseEntry::from_line(line0.as_str(), owned) {
            Some(entry) => entry,
            None => {
                return Err(bad_data_err());
            },
        };
        let words_played = match DatabaseEntry::from_collection(line1.as_str(), owned) {
            Some(entry) => entry,
            None => {
                return Err(bad_data_err());
            },
        };
        let num_guesses_list = match DatabaseEntry::try_from_collection(
            line2.as_str(),
            parse_usize,
        ) {
            Ok(Some(entry)) => entry,
            Ok(None) => {
                return Err(bad_data_err());
            },
            Err(_) => {
                proof {
                    let i = choose|i: int|
                        0 <= i < items_of(ls[2]).len() && #[trigger] item_read(
                            ls[2],
                            parse_usize,
                            i,
                            Err::<usize, InvalidNumber>(InvalidNumber),
                        );
                    assert(parse_decimal_spec(items_of(ls[2])[i]) is None);
                }
                return Err(bad_data_err());
            },
        };
        let max_win_streak = match DatabaseEntry::try_from_line(line3.as_str(), parse_usize) {
            Ok(Some(entry)) => entry,
            Ok(None) => {
                return Err(bad_data_err());
            },
            Err(_) => {
                return Err(bad_data_err());
            },
        };
        let cur_win_streak = match DatabaseEntry::try_from_line(line4.as_str(), parse_usize) {
            Ok(Some(entry)) => entry,
            Ok(None) => {
                return Err(bad_data_err());
            },
            Err(_) => {
                return Err(bad_data_err());
            },
        };
        let ghost items = items_of(ls[2]);
        assert forall|i: int| 0 <= i < items.len() implies parse_decimal_spec(
            #[trigger] items[i],
        ) is Some && parse_decimal_spec(items[i])->0 == num_guesses_list.value@[i] by {
            assert(item_read(
                ls[2],
                parse_usize,
                i,
                Ok::<usize, InvalidNumber>(num_guesses_list.value@[i]),
            ));
        }
        assert(is_record(ls));

        // The first six numbers are the counters; missing ones are zero.
        let mut num_guesses = [0usize;6];
        let mut i: usize = 0;
        while i < 6 && i < num_guesses_list.value.len()
            invariant
                i <= 6,
                num_guesses_list.value@.len() == items.len(),
                forall|j: int|
                    0 <= j < items.len() ==> parse_decimal_spec(#[trigger] items[j])->0
                        == num_guesses_list.value@[j],
                forall|j: int| 0 <= j < i ==> #[trigger] num_guesses@[j] == counters_of(items)[j],
                forall|j: int| i <= j < 6 ==> #[trigger] num_guesses@[j] == 0,
            decreases 6 - i,
        {
            num_guesses[i] = num_guesses_list.value[i];
            i += 1;
        }
        assert(num_guesses@ =~= counters_of(items));

        // An empty value lists no word.
        let listed = words_played.value;
        assert(texts_of(listed@) =~= split(value_of(ls[1]), ',')) by {
            assert forall|j: int| 0 <= j < listed@.len() implies texts_of(listed@)[j] == items_of(
                ls[1],
            )[j] by {
                assert(item_read(ls[1], owned, j, listed@[j]));
            }
        }
        proof {
            lemma_join_of_split(value_of(ls[1]), ',');
            lemma_distinct(Seq::<Seq<char>>::empty());
        }
        let none_listed = listed.len() == 1 && chars_of(listed[0].as_str()).len() == 0;
        let words = if none_listed {
            Vec::new()
        } else {
            listed
        };
        assert(distinct(texts_of(words@)) =~= words_of(value_of(ls[1]))) by {
            if none_listed {
                assert(texts_of(listed@) =~= seq![Seq::<char>::empty()]);
                assert(texts_of(words@) =~= Seq::<Seq<char>>::empty());
            } else {
                if value_of(ls[1]).len() == 0 {
                    assert(split(value_of(ls[1]), ',') =~= seq![Seq::<char>::empty()]);
                }
            }
        }
        let player = PlayerInfo::load(
            username.value,
            words,
            num_guesses,
            max_win_streak.value,
            cur_win_streak.value,
        );
        Ok(Some(player))
    }

    /// Writes the statistics of the player: the number of words played,
    /// the win rate, both streaks, and the distribution of guesses with a
    /// bar for each number of guesses.
    pub fn get_stats(&self) -> (stats: String)
        ensures
            stats@ == stats_text(self@),
    {
        let played = self.words_played.len();
        let mut wins: u128 = 0;
        let mut most: usize = 0;
        let mut k: usize = 0;
        while k < 6
            invariant
                k <= 6,
                wins == sum_of(self.num_guesses@, k as int),
                wins <= k * usize::MAX,
                most == greatest_of(self.num_guesses@, k as int),
            decreases 6 - k,
        {
            let count = self.num_guesses[k];
            wins = wins + count as u128;
            if most < count {
                most = count;
            }
            k += 1;
        }
        let rate: usize = if played == 0 {
            0
        } else {
            let exact = round_div(100 * wins, played as u128);
            if exact > u32::MAX as u128 {
                u32::MAX as usize
            } else {
                exact as usize
            }
        };
        assert(rate == win_rate(self@));
        proof {
            lemma_bar_length_bounded(self.num_guesses@, 0);
            lemma_bar_length_bounded(self.num_guesses@, 1);
            lemma_bar_length_bounded(self.num_guesses@, 2);
            lemma_bar_length_bounded(self.num_guesses@, 3);
            lemma_bar_length_bounded(self.num_guesses@, 4);
            lemma_bar_length_bounded(self.num_guesses@, 5);
        }

        let mut rate_text = format_decimal(rate);
        rate_text.push('%');
        let line0 = labelled("Number of Words Played: ", &format_decimal(played));
        let line1 = labelled("Win Rate: ", &rate_text);
        let line2 = labelled("Current Win Streak: ", &format_decimal(self.cur_win_streak));
        let line3 = labelled("Maximum Win Streak: ", &format_decimal(self.max_win_streak));
        let line4 = chars_of("Guess Distribution:");
        let row1 = format_row(1, self.num_guesses[0], most);
        let row2 = format_row(2, self.num_guesses[1], most);
        let row3 = format_row(3, self.num_guesses[2], most);
        let row4 = format_row(4, self.num_guesses[3], most);
        let row5 = format_row(5, self.num_guesses[4], most);
        let row6 = format_row(6, self.num_guesses[5], most);
        let ghost expected = stats_lines(self@);
        assert(line0@ == expected[0]);
        assert(line1@ =~= expected[1]);
        assert(line2@ == expected[2]);
        assert(line3@ == expected[3]);
        assert(line4@ == expected[4]);
        assert(row1@ == expected[5]);
        assert(row6@ == expected[10]);
        let mut lines: Vec<Vec<char>> = Vec::new();
        lines.push(line0);
        lines.push(line1);
        lines.push(line2);
        lines.push(line3);
        lines.push(line4);
        lines.push(row1);
        lines.push(row2);
        lines.push(row3);
        lines.push(row4);
        lines.push(row5);
        lines.push(row6);
        assert(views_of(lines@) =~= expected);
        string_of(&join_chars(&lines, '\n'))
    }

    /// The places in the dictionary of the words that this player has not
    /// played, in their order.
    fn unplayed_places(&self, dictionary: &Vec<String>) -> (places: Vec<usize>)
        ensures
            places@.len() == unplayed(texts_of(dictionary@), self@.words_played).len(),
            forall|k: int|
                0 <= k < places@.len() ==> (#[trigger] places@[k]) < dictionary@.len()
                    && dictionary@[places@[k] as int]@ == unplayed(
                    texts_of(dictionary@),
                    self@.words_played,
                )[k],
    {
        let ghost all = texts_of(dictionary@);
        let ghost played = self@.words_played;
        let mut places: Vec<usize> = Vec::new();
        let mut i: usize = 0;
        proof {
            reveal(Seq::filter);
            assert(all.take(0) =~= Seq::empty());
        }
        while i < dictionary.len()
            invariant
                i <= dictionary.len(),
                all == texts_of(dictionary@),
                played == self@.words_played,
                places@.len() == unplayed(all.take(i as int), played).len(),
                forall|k: int|
                    0 <= k < places@.len() ==> (#[trigger] places@[k]) < i
                        && dictionary@[places@[k] as int]@ == unplayed(
                        all.take(i as int),
                        played,
                    )[k],
            decreases dictionary.len() - i,
        {
            proof {
                lemma_unplayed_push(all.take(i as int), played, all[i as int]);
                assert(all.take(i as int).push(all[i as int]) =~= all.take(i + 1));
            }
            if !has_text(&self.words_played, &dictionary[i]) {
                places.push(i);
            }
            i += 1;
        }
        assert(all.take(i as int) =~= all);
        places
    }

    /// The unplayed word of the dictionary at the given place among the
    /// unplayed ones, if there are that many.
    pub fn nth_unplayed_word<'a>(&self, dictionary: &'a Vec<String>, index: usize) -> (word:
        Option<&'a str>)
        ensures
            word is Some <==> index < unplayed(texts_of(dictionary@), self@.words_played).len(),
            word is Some ==> word->0@ == unplayed(
                texts_of(dictionary@),
                self@.words_played,
            )[index as int],
    {
        let places = self.unplayed_places(dictionary);
        if index < places.len() {
            Some(dictionary[places[index]].as_str())
        } else {
            None
        }
    }

    /// Picks at random a word of the dictionary that this player has not
    /// played; none if every word was played.
    pub fn get_random_word<'a>(&self, dictionary: &'a Vec<String>) -> (word: Option<&'a str>)
        ensures
            word is None <==> unplayed(texts_of(dictionary@), self@.words_played).len() == 0,
            word is Some ==> unplayed(texts_of(dictionary@), self@.words_played).contains(
                word->0@,
            ) && texts_of(dictionary@).contains(word->0@) && !self@.words_played.contains(
                word->0@,
            ),
    {
        let places = self.unplayed_places(dictionary);
        if places.len() == 0 {
            None
        } else {
            let index = random_below(places.len());
            proof {
                lemma_unplayed_member(
                    texts_of(dictionary@),
                    self@.words_played,
                    index as int,
                );
            }
            Some(dictionary[places[index]].as_str())
        }
    }
}

/// Tells whether every word of one list is in another.
fn all_contained(words: &Vec<String>, others: &Vec<String>) -> (all: bool)
    ensures
        all == forall|w: Seq<char>|
            texts_of(words@).contains(w) ==> texts_of(others@).contains(w),
{
    let mut i: usize = 0;
    while i < words.len()
        invariant
            i <= words.len(),
            forall|j: int|
                0 <= j < i ==> texts_of(others@).contains(#[trigger] texts_of(words@)[j]),
        decreases words.len() - i,
    {
        if !has_text(others, &words[i]) {
            assert(texts_of(words@).contains(texts_of(words@)[i as int]));
            return false;
        }
        i += 1;
    }
    true
}

impl PartialEq for PlayerInfo {
    /// Two records are equal if they hold the same name, words, counters
    /// and streaks; the order of the words does not count.
    fn eq(&self, other: &PlayerInfo) -> (r: bool) {
        let same_counts = self.num_guesses[0] == other.num_guesses[0] && self.num_guesses[1]
            == other.num_guesses[1] && self.num_guesses[2] == other.num_guesses[2]
            && self.num_guesses[3] == other.num_guesses[3] && self.num_guesses[4]
            == other.num_guesses[4] && self.num_guesses[5] == other.num_guesses[5];
        assert(same_counts == (self.num_guesses@ =~= other.num_guesses@));
        let forth = all_contained(&self.words_played, &other.words_played);
        let back = all_contained(&other.words_played, &self.words_played);
        proof {
            let a = texts_of(self.words_played@);
            let b = texts_of(other.words_played@);
            if forth && back {
                assert(a.to_set() =~= b.to_set());
            }
            if a.to_set() == b.to_set() {
                assert forall|w: Seq<char>| a.contains(w) <==> b.contains(w) by {
                    assert(a.to_set().contains(w) <==> b.to_set().contains(w));
                }
            }
        }
        self.username == other.username && forth && back && same_counts && self.max_win_streak
            == other.max_win_streak && self.cur_win_streak == other.cur_win_streak
    }
}

impl PartialEqSpecImpl for PlayerInfo {
    open spec fn obeys_eq_spec() -> bool {
        true
    }

    open spec fn eq_spec(&self, other: &PlayerInfo) -> bool {
        self@.same_as(other@)
    }
}

impl Eq for PlayerInfo {

}

} // verus!
