//! Helpers on sequences of characters: conversion between strings and
//! character vectors, decimal numbers, and splitting at separators.

use vstd::prelude::*;
use vstd::std_specs::iter::IteratorSpec;

verus! {

/// Copies the characters of a string slice into a vector.
pub fn chars_of(s: &str) -> (out: Vec<char>)
    ensures
        out@ == s@,
{
    let mut out: Vec<char> = Vec::new();
    let mut it = s.chars();
    let ghost mut done: Seq<char> = Seq::empty();
    loop
        invariant
            it.obeys_prophetic_iter_laws(),
            done + it.remaining() == s@,
            out@ == done,
            it.decrease() is Some,
        decreases it.decrease()->0,
    {
        let ghost before = it;
        match it.next() {
            Some(c) => {
                proof {
                    broadcast use vstd::string::next_postcondition;

                    assert(done.push(c) + it.remaining() =~= done + before.remaining());
                    done = done.push(c);
                }
                out.push(c);
            },
            None => {
                proof {
                    broadcast use vstd::string::next_postcondition;

                    assert(done + it.remaining() =~= done);
                }
                return out;
            },
        }
    }
}

/// `String::push` of the standard library: the character is appended to
/// the end of the string and nothing else changes.
#[verifier::external_body]
pub(crate) fn push_char(s: &mut String, c: char)
    ensures
        final(s)@ == old(s)@.push(c),
{
    s.push(c)
}

/// Builds a string from the characters `chars[from..to]`.
pub fn string_of_range(chars: &Vec<char>, from: usize, to: usize) -> (s: String)
    requires
        from <= to <= chars.len(),
    ensures
        s@ == chars@.subrange(from as int, to as int),
{
    let mut s = String::new();
    let mut i: usize = from;
    while i < to
        invariant
            from <= i <= to <= chars.len(),
            s@ == chars@.subrange(from as int, i as int),
        decreases to - i,
    {
        push_char(&mut s, chars[i]);
        i += 1;
        assert(s@ =~= chars@.subrange(from as int, i as int));
    }
    s
}

/// Builds a string from a vector of characters.
pub fn string_of(chars: &Vec<char>) -> (s: String)
    ensures
        s@ == chars@,
{
    let s = string_of_range(chars, 0, chars.len());
    assert(chars@.subrange(0, chars@.len() as int) =~= chars@);
    s
}

/// Appends the characters of `tail` to `out`.
pub fn append_chars(out: &mut Vec<char>, tail: &Vec<char>)
    ensures
        final(out)@ == old(out)@ + tail@,
{
    let mut i: usize = 0;
    while i < tail.len()
        invariant
            i <= tail.len(),
            out@ == old(out)@ + tail@.take(i as int),
        decreases tail.len() - i,
    {
        out.push(tail[i]);
        i += 1;
        assert(out@ =~= old(out)@ + tail@.take(i as int));
    }
    assert(tail@.take(tail@.len() as int) =~= tail@);
}

/// Appends the characters of the string slice `tail` to `out`.
pub fn append_str(out: &mut Vec<char>, tail: &str)
    ensures
        final(out)@ == old(out)@ + tail@,
{
    let t = chars_of(tail);
    append_chars(out, &t);
}

/// The decimal digit that stands for `d`, for `d` below ten.
pub open spec fn digit_char(d: int) -> char {
    if d == 0 {
        '0'
    } else if d == 1 {
        '1'
    } else if d == 2 {
        '2'
    } else if d == 3 {
        '3'
    } else if d == 4 {
        '4'
    } else if d == 5 {
        '5'
    } else if d == 6 {
        '6'
    } else if d == 7 {
        '7'
    } else if d == 8 {
        '8'
    } else {
        '9'
    }
}

/// Whether `c` is one of the ten decimal digits.
pub open spec fn is_digit(c: char) -> bool {
    '0' <= c && c <= '9'
}

/// The value of the decimal digit `c`.
pub open spec fn digit_value(c: char) -> int {
    if c == '1' {
        1
    } else if c == '2' {
        2
    } else if c == '3' {
        3
    } else if c == '4' {
        4
    } else if c == '5' {
        5
    } else if c == '6' {
        6
    } else if c == '7' {
        7
    } else if c == '8' {
        8
    } else if c == '9' {
        9
    } else {
        0
    }
}

/// The shortest decimal numeral of `n`: no sign and no leading zero, and
/// `"0"` for zero.
pub open spec fn decimal(n: nat) -> Seq<char>
    decreases n,
{
    if n < 10 {
        seq![digit_char(n as int)]
    } else {
        decimal(n / 10).push(digit_char((n % 10) as int))
    }
}

/// The number that a sequence of decimal digits stands for.
pub open spec fn digits_value(s: Seq<char>) -> nat
    decreases s.len(),
{
    if s.len() == 0 {
        0
    } else {
        (digits_value(s.drop_last()) * 10 + digit_value(s.last())) as nat
    }
}

/// Whether every character of `s` is a decimal digit.
pub open spec fn all_digits(s: Seq<char>) -> bool {
    forall|i: int| 0 <= i < s.len() ==> is_digit(#[trigger] s[i])
}

/// The digit of a value below ten.
pub fn digit_of(d: usize) -> (c: char)
    requires
        d < 10,
    ensures
        c == digit_char(d as int),
        is_digit(c),
        digit_value(c) == d,
{
    if d == 0 {
        '0'
    } else if d == 1 {
        '1'
    } else if d == 2 {
        '2'
    } else if d == 3 {
        '3'
    } else if d == 4 {
        '4'
    } else if d == 5 {
        '5'
    } else if d == 6 {
        '6'
    } else if d == 7 {
        '7'
    } else if d == 8 {
        '8'
    } else {
        '9'
    }
}

/// The value of a character as a decimal digit, if it is one.
pub fn value_of_digit(c: char) -> (r: Option<usize>)
    ensures
        r is Some <==> is_digit(c),
        r is Some ==> r->0 == digit_value(c) && r->0 < 10 && c == digit_char(r->0 as int),
{
    let r: Option<usize> = if c == '0' {
        Some(0)
    } else if c == '1' {
        Some(1)
    } else if c == '2' {
        Some(2)
    } else if c == '3' {
        Some(3)
    } else if c == '4' {
        Some(4)
    } else if c == '5' {
        Some(5)
    } else if c == '6' {
        Some(6)
    } else if c == '7' {
        Some(7)
    } else if c == '8' {
        Some(8)
    } else if c == '9' {
        Some(9)
    } else {
        None
    };
    r
}

/// The numeral of a number is made of digits, and stands for the number.
pub proof fn lemma_decimal_value(n: nat)
    ensures
        decimal(n).len() > 0,
        all_digits(decimal(n)),
        digits_value(decimal(n)) == n,
    decreases n,
{
    if n < 10 {
        let s = decimal(n);
        assert(s.len() == 1);
        assert(s[0] == digit_char(n as int));
        assert(s.drop_last().len() == 0);
        assert(digits_value(s.drop_last()) == 0);
        assert(s.last() == digit_char(n as int));
    } else {
        lemma_decimal_value(n / 10);
        let p = decimal(n / 10);
        let c = digit_char((n % 10) as int);
        let s = p.push(c);
        assert(s.drop_last() =~= p);
        assert(s.last() == c);
        assert forall|i: int| 0 <= i < s.len() implies is_digit(#[trigger] s[i]) by {
            if i < p.len() {
                assert(s[i] == p[i]);
            }
        }
    }
}

/// Writes a number as its shortest decimal numeral.
pub fn format_decimal(n: usize) -> (out: Vec<char>)
    ensures
        out@ == decimal(n as nat),
    decreases n,
{
    if n < 10 {
        let mut out: Vec<char> = Vec::new();
        out.push(digit_of(n));
        assert(out@ =~= decimal(n as nat));
        out
    } else {
        let mut out = format_decimal(n / 10);
        out.push(digit_of(n % 10));
        out
    }
}

/// What is left of a numeral once an optional leading plus sign is taken
/// away.
pub open spec fn unsigned_body(s: Seq<char>) -> Seq<char> {
    if s.len() > 0 && s[0] == '+' {
        s.skip(1)
    } else {
        s
    }
}

/// The number that a sequence of digits stands for, if there is at least
/// one digit and the number fits in a `usize`.
pub open spec fn digits_spec(body: Seq<char>) -> Option<usize> {
    if body.len() > 0 && all_digits(body) && digits_value(body) <= usize::MAX {
        Some(digits_value(body) as usize)
    } else {
        None
    }
}

/// The number that a text stands for, if it is a numeral of a `usize`: an
/// optional plus sign followed by at least one digit, with a value that
/// fits.
pub open spec fn parse_decimal_spec(s: Seq<char>) -> Option<usize> {
    digits_spec(unsigned_body(s))
}

/// A prefix of a digit sequence stands for no more than the whole.
pub proof fn lemma_digits_value_monotone(s: Seq<char>, k: int)
    requires
        0 <= k <= s.len(),
    ensures
        digits_value(s.take(k)) <= digits_value(s),
    decreases s.len() - k,
{
    if k == s.len() {
        assert(s.take(k) =~= s);
    } else {
        lemma_digits_value_monotone(s.drop_last(), k);
        assert(s.drop_last().take(k) =~= s.take(k));
    }
}

/// Reading back the numeral of a number gives the number.
pub proof fn lemma_parse_decimal_of_decimal(n: usize)
    ensures
        parse_decimal_spec(decimal(n as nat)) == Some(n),
{
    lemma_decimal_value(n as nat);
    let s = decimal(n as nat);
    assert(is_digit(s[0]));
    assert(s[0] != '+');
}

/// Reads the digits `s[start..]` as a number.
fn parse_digits(s: &Vec<char>, start: usize) -> (r: Option<usize>)
    requires
        start <= s.len(),
    ensures
        r == digits_spec(s@.skip(start as int)),
{
    let ghost body = s@.skip(start as int);
    if start == s.len() {
        return None;
    }
    let mut acc: usize = 0;
    let mut i: usize = start;
    while i < s.len()
        invariant
            start <= i <= s.len(),
            body == s@.skip(start as int),
            all_digits(body.take(i - start)),
            acc == digits_value(body.take(i - start)),
        decreases s.len() - i,
    {
        let ghost k = i - start;
        assert(body[k] == s@[i as int]);
        assert(body.take(k + 1).drop_last() =~= body.take(k));
        assert(body.take(k + 1).last() == body[k]);
        match value_of_digit(s[i]) {
            None => {
                assert(!is_digit(body[k]));
                return None;
            },
            Some(d) => {
                if acc > (usize::MAX - d) / 10 {
                    proof {
                        lemma_digits_value_monotone(body, k + 1);
                        assert(digits_value(body.take(k + 1)) == acc * 10 + d);
                    }
                    return None;
                }
                acc = acc * 10 + d;
                assert forall|j: int| 0 <= j < k + 1 implies is_digit(
                    #[trigger] body.take(k + 1)[j],
                ) by {
                    if j < k {
                        assert(body.take(k + 1)[j] == body.take(k)[j]);
                    }
                }
            },
        }
        i += 1;
    }
    assert(body.take(i - start) =~= body);
    Some(acc)
}

/// Reads a numeral of a `usize`.
pub fn parse_decimal(s: &Vec<char>) -> (r: Option<usize>)
    ensures
        r == parse_decimal_spec(s@),
{
    let start: usize = if s.len() > 0 && s[0] == '+' {
        1
    } else {
        0
    };
    assert(unsigned_body(s@) =~= s@.skip(start as int));
    parse_digits(s, start)
}

/// The whole number that a text stands for, if it is a numeral of an
/// `isize`: an optional plus or minus sign followed by at least one digit,
/// with a value that fits.
pub open spec fn parse_signed_spec(s: Seq<char>) -> Option<isize> {
    if s.len() > 0 && s[0] == '-' {
        let body = s.skip(1);
        if body.len() > 0 && all_digits(body) && -digits_value(body) >= isize::MIN {
            Some((-digits_value(body)) as isize)
        } else {
            None
        }
    } else {
        let body = unsigned_body(s);
        if body.len() > 0 && all_digits(body) && digits_value(body) <= isize::MAX {
            Some(digits_value(body) as isize)
        } else {
            None
        }
    }
}

/// Reads a numeral of an `isize`.
pub fn parse_signed(s: &Vec<char>) -> (r: Option<isize>)
    ensures
        r == parse_signed_spec(s@),
{
    if s.len() > 0 && s[0] == '-' {
        match parse_digits(s, 1) {
            None => None,
            Some(m) => {
                if m == 0 {
                    Some(0)
                } else if m - 1 > isize::MAX as usize {
                    None
                } else {
                    Some(-((m - 1) as isize) - 1)
                }
            },
        }
    } else {
        let start: usize = if s.len() > 0 && s[0] == '+' {
            1
        } else {
            0
        };
        assert(unsigned_body(s@) =~= s@.skip(start as int));
        match parse_digits(s, start) {
            None => None,
            Some(m) => {
                if m > isize::MAX as usize {
                    None
                } else {
                    Some(m as isize)
                }
            },
        }
    }
}

/// The pieces of `s` between the occurrences of `sep`: one more than there
/// are occurrences, so a text without the separator is one piece, the empty
/// text too.
pub open spec fn split(s: Seq<char>, sep: char) -> Seq<Seq<char>>
    decreases s.len(),
{
    if s.len() == 0 {
        seq![Seq::empty()]
    } else {
        let before = split(s.drop_last(), sep);
        if s.last() == sep {
            before.push(Seq::empty())
        } else {
            before.drop_last().push(before.last().push(s.last()))
        }
    }
}

/// The pieces with `sep` between each two neighbours.
pub open spec fn join(pieces: Seq<Seq<char>>, sep: char) -> Seq<char>
    decreases pieces.len(),
{
    if pieces.len() == 0 {
        Seq::empty()
    } else if pieces.len() == 1 {
        pieces[0]
    } else {
        join(pieces.drop_last(), sep).push(sep) + pieces.last()
    }
}

/// The views of a sequence of character vectors.
pub open spec fn views_of(v: Seq<Vec<char>>) -> Seq<Seq<char>> {
    Seq::new(v.len(), |i: int| v[i]@)
}

/// The views of a sequence of strings.
pub open spec fn texts_of(v: Seq<String>) -> Seq<Seq<char>> {
    Seq::new(v.len(), |i: int| v[i]@)
}

/// The views of a sequence with one more vector at its end.
pub proof fn lemma_views_push(v: Seq<Vec<char>>, x: Vec<char>)
    ensures
        views_of(v.push(x)) == views_of(v).push(x@),
{
    assert(views_of(v.push(x)) =~= views_of(v).push(x@));
}

/// Splitting always gives at least one piece.
pub proof fn lemma_split_nonempty(s: Seq<char>, sep: char)
    ensures
        split(s, sep).len() >= 1,
    decreases s.len(),
{
    if s.len() > 0 {
        lemma_split_nonempty(s.drop_last(), sep);
    }
}

/// A text without the separator is its own single piece.
pub proof fn lemma_split_without_separator(s: Seq<char>, sep: char)
    requires
        !s.contains(sep),
    ensures
        split(s, sep) == seq![s],
    decreases s.len(),
{
    if s.len() > 0 {
        let p = s.drop_last();
        assert forall|i: int| 0 <= i < p.len() implies p[i] != sep by {
            assert(p[i] == s[i]);
            assert(s.contains(s[i]));
        }
        assert(!p.contains(sep));
        lemma_split_without_separator(p, sep);
        assert(s.contains(s.last()));
        assert(seq![p].drop_last().push(seq![p].last().push(s.last())) =~= seq![s]) by {
            assert(p.push(s.last()) =~= s);
        }
    } else {
        assert(s =~= Seq::empty());
    }
}

/// A separator followed by a piece without separators adds that piece.
pub proof fn lemma_split_append(a: Seq<char>, b: Seq<char>, sep: char)
    requires
        !b.contains(sep),
    ensures
        split(a.push(sep) + b, sep) == split(a, sep).push(b),
    decreases b.len(),
{
    let s = a.push(sep) + b;
    if b.len() == 0 {
        assert(s =~= a.push(sep));
        assert(s.drop_last() =~= a);
        assert(b =~= Seq::empty());
    } else {
        let p = b.drop_last();
        assert forall|i: int| 0 <= i < p.len() implies p[i] != sep by {
            assert(p[i] == b[i]);
            assert(b.contains(b[i]));
        }
        assert(!p.contains(sep));
        lemma_split_append(a, p, sep);
        assert(s.drop_last() =~= a.push(sep) + p);
        assert(s.last() == b.last());
        assert(b.contains(b.last()));
        let before = split(a, sep).push(p);
        assert(before.drop_last() =~= split(a, sep));
        assert(p.push(b.last()) =~= b);
    }
}

/// Splitting undoes joining, for pieces that do not hold the separator.
pub proof fn lemma_split_of_join(pieces: Seq<Seq<char>>, sep: char)
    requires
        pieces.len() > 0,
        forall|i: int| 0 <= i < pieces.len() ==> !(#[trigger] pieces[i]).contains(sep),
    ensures
        split(join(pieces, sep), sep) == pieces,
    decreases pieces.len(),
{
    if pieces.len() == 1 {
        lemma_split_without_separator(pieces[0], sep);
        assert(seq![pieces[0]] =~= pieces);
    } else {
        let head = pieces.drop_last();
        assert forall|i: int| 0 <= i < head.len() implies !(#[trigger] head[i]).contains(sep) by {
            assert(head[i] == pieces[i]);
        }
        lemma_split_of_join(head, sep);
        lemma_split_append(join(head, sep), pieces.last(), sep);
        assert(head.push(pieces.last()) =~= pieces);
    }
}

/// Splits a text at each occurrence of a separator.
pub fn split_chars(s: &Vec<char>, sep: char) -> (pieces: Vec<Vec<char>>)
    ensures
        views_of(pieces@) == split(s@, sep),
{
    let mut pieces: Vec<Vec<char>> = Vec::new();
    let mut cur: Vec<char> = Vec::new();
    let mut i: usize = 0;
    assert(s@.take(0) =~= Seq::empty());
    assert(views_of(pieces@).push(cur@) =~= seq![Seq::<char>::empty()]);
    while i < s.len()
        invariant
            i <= s.len(),
            views_of(pieces@).push(cur@) == split(s@.take(i as int), sep),
        decreases s.len() - i,
    {
        let c = s[i];
        let ghost before = split(s@.take(i as int), sep);
        let ghost done = views_of(pieces@);
        assert(s@.take(i + 1).drop_last() =~= s@.take(i as int));
        assert(s@.take(i + 1).last() == c);
        assert(before.drop_last() =~= done);
        assert(before.last() == cur@);
        if c == sep {
            pieces.push(cur);
            cur = Vec::new();
            assert(views_of(pieces@) =~= before);
        } else {
            cur.push(c);
        }
        i += 1;
    }
    assert(s@.take(i as int) =~= s@);
    pieces.push(cur);
    assert(views_of(pieces@) =~= split(s@, sep));
    pieces
}

/// Copies the characters `v[from..to]` into a vector of their own.
pub fn copy_range(v: &Vec<char>, from: usize, to: usize) -> (out: Vec<char>)
    requires
        from <= to <= v.len(),
    ensures
        out@ == v@.subrange(from as int, to as int),
{
    let mut out: Vec<char> = Vec::new();
    let mut i: usize = from;
    while i < to
        invariant
            from <= i <= to <= v.len(),
            out@ == v@.subrange(from as int, i as int),
        decreases to - i,
    {
        out.push(v[i]);
        i += 1;
        assert(out@ =~= v@.subrange(from as int, i as int));
    }
    out
}

/// A piece of text without the carriage return that it may end in.
pub open spec fn strip_cr(s: Seq<char>) -> Seq<char> {
    if s.len() > 0 && s.last() == '\r' {
        s.drop_last()
    } else {
        s
    }
}

/// The first `n` pieces of a text that was split at its line feeds, each
/// without the carriage return that it may end in.
pub open spec fn ended_lines(pieces: Seq<Seq<char>>, n: int) -> Seq<Seq<char>> {
    Seq::new(n as nat, |i: int| strip_cr(pieces[i]))
}

/// The lines of a text. A line ends at a line feed, or at a carriage
/// return directly followed by a line feed; neither belongs to the line.
/// What follows the last line feed is a line of its own unless it is
/// empty, so the line feed at the end of a text is optional.
pub open spec fn lines(s: Seq<char>) -> Seq<Seq<char>> {
    let pieces = split(s, '\n');
    let n = pieces.len() - 1;
    let ended = ended_lines(pieces, n);
    if pieces[n].len() == 0 {
        ended
    } else {
        ended.push(pieces[n])
    }
}

/// Splits a text into its lines.
pub fn lines_of(s: &Vec<char>) -> (out: Vec<Vec<char>>)
    ensures
        views_of(out@) == lines(s@),
{
    let pieces = split_chars(s, '\n');
    proof {
        lemma_split_nonempty(s@, '\n');
    }
    let ghost all = split(s@, '\n');
    let n: usize = pieces.len() - 1;
    let mut out: Vec<Vec<char>> = Vec::new();
    let mut i: usize = 0;
    while i < n
        invariant
            i <= n,
            n + 1 == pieces.len(),
            views_of(pieces@) == all,
            views_of(out@) == ended_lines(all, i as int),
        decreases n - i,
    {
        let piece = &pieces[i];
        assert(piece@ == all[i as int]);
        let len = piece.len();
        let line = if len > 0 && piece[len - 1] == '\r' {
            copy_range(piece, 0, len - 1)
        } else {
            copy_range(piece, 0, len)
        };
        assert(line@ =~= strip_cr(all[i as int]));
        let ghost before = views_of(out@);
        out.push(line);
        i += 1;
        assert(views_of(out@) =~= before.push(line@));
        assert(views_of(out@) =~= ended_lines(all, i as int));
    }
    let last = &pieces[n];
    assert(last@ == all[n as int]);
    if last.len() > 0 {
        let line = copy_range(last, 0, last.len());
        assert(line@ =~= last@);
        out.push(line);
        assert(views_of(out@) =~= lines(s@));
    }
    out
}

/// Joins pieces of text with a separator between each two neighbours.
pub fn join_chars(pieces: &Vec<Vec<char>>, sep: char) -> (out: Vec<char>)
    ensures
        out@ == join(views_of(pieces@), sep),
{
    let mut out: Vec<char> = Vec::new();
    let ghost all = views_of(pieces@);
    let mut i: usize = 0;
    assert(all.take(0) =~= Seq::empty());
    while i < pieces.len()
        invariant
            i <= pieces.len(),
            all == views_of(pieces@),
            out@ == join(all.take(i as int), sep),
        decreases pieces.len() - i,
    {
        assert(all.take(i + 1).drop_last() =~= all.take(i as int));
        assert(all.take(i + 1).last() == pieces[i as int]@);
        if i > 0 {
            out.push(sep);
        }
        append_chars(&mut out, &pieces[i]);
        i += 1;
        assert(out@ =~= join(all.take(i as int), sep));
    }
    assert(all.take(i as int) =~= all);
    out
}

/// The text made of the given lines, each followed by a line feed.
pub open spec fn terminated(lines: Seq<Seq<char>>) -> Seq<char>
    decreases lines.len(),
{
    if lines.len() == 0 {
        Seq::empty()
    } else {
        terminated(lines.drop_last()) + lines.last() + seq!['\n']
    }
}

/// One more line at the end of a text adds the line and its line feed.
pub proof fn lemma_terminated_push(lines: Seq<Seq<char>>, line: Seq<char>)
    ensures
        terminated(lines.push(line)) == terminated(lines) + line + seq!['\n'],
{
    assert(lines.push(line).drop_last() =~= lines);
}

/// Lines that are each followed by a line feed are the pieces between the
/// line feeds, with an empty piece behind the last.
pub proof fn lemma_terminated_is_join(lines: Seq<Seq<char>>)
    ensures
        terminated(lines) == join(lines.push(Seq::empty()), '\n'),
    decreases lines.len(),
{
    let all = lines.push(Seq::empty());
    assert(all.drop_last() =~= lines);
    if lines.len() == 0 {
    } else if lines.len() == 1 {
        assert(join(lines, '\n') == lines[0]);
        assert(terminated(lines.drop_last()) =~= Seq::<char>::empty());
        assert(terminated(lines) =~= join(all, '\n'));
    } else {
        let head = lines.drop_last();
        lemma_terminated_is_join(head);
        assert(head.push(Seq::empty()).drop_last() =~= head);
        assert(join(head.push(Seq::empty()), '\n') =~= join(head, '\n').push('\n'));
        assert(join(lines, '\n') == join(head, '\n').push('\n') + lines.last());
        assert(join(all, '\n') == join(all.drop_last(), '\n').push('\n') + all.last());
        assert(terminated(lines) =~= join(all, '\n'));
    }
}

/// Whether a line can stand in a text and be read back: it holds no line
/// feed and does not end in a carriage return.
pub open spec fn is_plain_line(line: Seq<char>) -> bool {
    !line.contains('\n') && strip_cr(line) == line
}

/// A text made of plain lines, each followed by a line feed, has exactly
/// those lines.
pub proof fn lemma_lines_of_terminated(ls: Seq<Seq<char>>)
    requires
        forall|i: int| 0 <= i < ls.len() ==> is_plain_line(#[trigger] ls[i]),
    ensures
        lines(terminated(ls)) == ls,
{
    let all = ls.push(Seq::empty());
    lemma_terminated_is_join(ls);
    assert forall|i: int| 0 <= i < all.len() implies !(#[trigger] all[i]).contains('\n') by {
        if i < ls.len() {
            assert(all[i] == ls[i]);
        }
    }
    lemma_split_of_join(all, '\n');
    assert(ended_lines(all, ls.len() as int) =~= ls);
}

/// Joining the pieces of a text with the separator gives the text back.
pub proof fn lemma_join_of_split(s: Seq<char>, sep: char)
    ensures
        join(split(s, sep), sep) == s,
    decreases s.len(),
{
    if s.len() == 0 {
        assert(join(seq![Seq::<char>::empty()], sep) =~= s);
    } else {
        let p = s.drop_last();
        let c = s.last();
        let before = split(p, sep);
        lemma_join_of_split(p, sep);
        lemma_split_nonempty(p, sep);
        assert(p.push(c) =~= s);
        if c == sep {
            let after = before.push(Seq::empty());
            assert(after.drop_last() =~= before);
            assert(join(after, sep) =~= join(before, sep).push(sep));
        } else {
            let after = before.drop_last().push(before.last().push(c));
            if before.len() == 1 {
                assert(join(after, sep) =~= before[0].push(c));
            } else {
                assert(after.drop_last() =~= before.drop_last());
                assert(join(after, sep) =~= join(before, sep).push(c));
            }
        }
    }
}

/// A text that cannot be read as a number.
#[derive(Debug, Copy, Clone, PartialEq, Eq)]
pub struct InvalidNumber;

/// Reads a numeral of a `usize` from a string slice.
pub fn parse_usize(s: &str) -> (r: Result<usize, InvalidNumber>)
    ensures
        r is Ok <==> parse_decimal_spec(s@) is Some,
        r is Ok ==> r->Ok_0 == parse_decimal_spec(s@)->0,
{
    let chars = chars_of(s);
    match parse_decimal(&chars) {
        Some(n) => Ok(n),
        None => Err(InvalidNumber),
    }
}

/// A string with the text of a string slice.
pub fn owned(s: &str) -> (r: String)
    ensures
        r@ == s@,
{
    s.to_owned()
}

/// A character that is neither the separator nor in any piece is not in
/// the joined text.
pub proof fn lemma_join_without(pieces: Seq<Seq<char>>, sep: char, c: char)
    requires
        c != sep,
        forall|i: int| 0 <= i < pieces.len() ==> !(#[trigger] pieces[i]).contains(c),
    ensures
        !join(pieces, sep).contains(c),
    decreases pieces.len(),
{
    if pieces.len() == 0 {
    } else if pieces.len() == 1 {
    } else {
        let head = pieces.drop_last();
        assert forall|i: int| 0 <= i < head.len() implies !(#[trigger] head[i]).contains(c) by {
            assert(head[i] == pieces[i]);
        }
        lemma_join_without(head, sep, c);
        let front = join(head, sep).push(sep);
        let all = front + pieces.last();
        assert forall|k: int| 0 <= k < all.len() implies all[k] != c by {
            if k < front.len() - 1 {
                assert(join(head, sep).contains(all[k]));
            } else if k >= front.len() {
                assert(pieces.last().contains(all[k])) by {
                    assert(pieces.last()[k - front.len()] == all[k]);
                }
            }
        }
    }
}

/// The joined text ends as its last piece does, or in the separator where
/// that piece is empty and is not the only one.
pub proof fn lemma_join_last(pieces: Seq<Seq<char>>, sep: char)
    requires
        pieces.len() > 0,
    ensures
        pieces.last().len() > 0 ==> join(pieces, sep).len() > 0 && join(pieces, sep).last()
            == pieces.last().last(),
        pieces.last().len() == 0 && pieces.len() > 1 ==> join(pieces, sep).len() > 0 && join(
            pieces,
            sep,
        ).last() == sep,
        pieces.len() == 1 ==> join(pieces, sep) == pieces[0],
        pieces.len() > 1 ==> join(pieces, sep).len() > 0,
{
}

/// A numeral holds digits only: none of its characters is a line break, a
/// comma or a colon.
pub proof fn lemma_decimal_is_plain(n: nat)
    ensures
        !decimal(n).contains('\n'),
        !decimal(n).contains('\r'),
        !decimal(n).contains(','),
        !decimal(n).contains(':'),
        is_plain_line(decimal(n)),
{
    lemma_decimal_value(n);
    let s = decimal(n);
    assert forall|i: int| 0 <= i < s.len() implies s[i] != '\n' && s[i] != '\r' && s[i] != ','
        && s[i] != ':' by {
        assert(is_digit(s[i]));
    }
}

/// Whether `c` is white space: a blank, a tab, a line break or one of
/// the other space characters of Unicode.
pub open spec fn is_whitespace(c: char) -> bool {
    let n = c as int;
    (0x09 <= n <= 0x0d) || n == 0x20 || n == 0x85 || n == 0xa0 || n == 0x1680 || (0x2000 <= n
        <= 0x200a) || n == 0x2028 || n == 0x2029 || n == 0x202f || n == 0x205f || n == 0x3000
}

/// Whether every character of `s` is white space.
pub open spec fn all_whitespace(s: Seq<char>) -> bool {
    forall|i: int| 0 <= i < s.len() ==> is_whitespace(#[trigger] s[i])
}

/// The text without the white space at its beginning and end.
pub open spec fn trimmed(s: Seq<char>) -> Seq<char>
    decreases s.len(),
{
    if s.len() == 0 {
        s
    } else if is_whitespace(s.last()) {
        trimmed(s.drop_last())
    } else if is_whitespace(s.first()) {
        trimmed(s.drop_first())
    } else {
        s
    }
}

/// Tells whether a character is white space.
pub fn is_space(c: char) -> (b: bool)
    ensures
        b == is_whitespace(c),
{
    let n = c as u32;
    (0x09 <= n && n <= 0x0d) || n == 0x20 || n == 0x85 || n == 0xa0 || n == 0x1680 || (0x2000 <= n
        && n <= 0x200a) || n == 0x2028 || n == 0x2029 || n == 0x202f || n == 0x205f || n == 0x3000
}

/// A capital letter for a small letter of the alphabet from `a` to `z`;
/// any other character as it is.
pub open spec fn ascii_upper(c: char) -> char {
    if 'a' <= c && c <= 'z' {
        ((c as int) - 32) as char
    } else {
        c
    }
}

/// Turns a small letter from `a` to `z` into its capital.
pub fn to_ascii_upper(c: char) -> (r: char)
    ensures
        r == ascii_upper(c),
{
    if 'a' <= c && c <= 'z' {
        ((c as u8) - 32) as char
    } else {
        c
    }
}

/// White space at the end of a text does not count.
pub proof fn lemma_trimmed_end(s: Seq<char>, to: int)
    requires
        0 <= to <= s.len(),
        all_whitespace(s.skip(to)),
    ensures
        trimmed(s) == trimmed(s.take(to)),
    decreases s.len() - to,
{
    if to < s.len() {
        assert(s.skip(to)[s.len() - to - 1] == s.last());
        let head = s.drop_last();
        assert forall|i: int| 0 <= i < head.skip(to).len() implies is_whitespace(
            #[trigger] head.skip(to)[i],
        ) by {
            assert(head.skip(to)[i] == s.skip(to)[i]);
        }
        lemma_trimmed_end(head, to);
        assert(head.take(to) =~= s.take(to));
    } else {
        assert(s.take(to) =~= s);
    }
}

/// A text that does not end in white space is trimmed by leaving out the
/// white space at its beginning.
pub proof fn lemma_trimmed_start(s: Seq<char>, from: int)
    requires
        0 <= from <= s.len(),
        all_whitespace(s.take(from)),
        s.len() > 0 ==> !is_whitespace(s.last()),
        from < s.len() ==> !is_whitespace(s[from]),
    ensures
        trimmed(s) == s.skip(from),
    decreases from,
{
    if from == 0 {
        assert(s.skip(0) =~= s);
    } else {
        assert(s.take(from)[0] == s[0]);
        let tail = s.drop_first();
        if from == s.len() {
            assert(s.take(from)[from - 1] == s.last());
        }
        assert forall|i: int| 0 <= i < tail.take(from - 1).len() implies is_whitespace(
            #[trigger] tail.take(from - 1)[i],
        ) by {
            assert(tail.take(from - 1)[i] == s.take(from)[i + 1]);
        }
        lemma_trimmed_start(tail, from - 1);
        assert(tail.skip(from - 1) =~= s.skip(from));
    }
}

/// Takes the white space at the beginning and end of a text away.
pub fn trim(s: &Vec<char>) -> (out: Vec<char>)
    ensures
        out@ == trimmed(s@),
{
    let mut to: usize = s.len();
    while to > 0 && is_space(s[to - 1])
        invariant
            to <= s.len(),
            all_whitespace(s@.skip(to as int)),
        decreases to,
    {
        to -= 1;
        assert forall|i: int| 0 <= i < s@.skip(to as int).len() implies is_whitespace(
            #[trigger] s@.skip(to as int)[i],
        ) by {
            if i > 0 {
                assert(s@.skip(to as int)[i] == s@.skip(to + 1)[i - 1]);
            }
        }
    }
    let ghost body = s@.take(to as int);
    let mut from: usize = 0;
    while from < to && is_space(s[from])
        invariant
            from <= to <= s.len(),
            body == s@.take(to as int),
            all_whitespace(body.take(from as int)),
        decreases to - from,
    {
        from += 1;
        assert forall|i: int| 0 <= i < body.take(from as int).len() implies is_whitespace(
            #[trigger] body.take(from as int)[i],
        ) by {
            if i < from - 1 {
                assert(body.take(from as int)[i] == body.take(from - 1)[i]);
            }
        }
    }
    proof {
        lemma_trimmed_end(s@, to as int);
        lemma_trimmed_start(body, from as int);
        assert(body.skip(from as int) =~= s@.subrange(from as int, to as int));
    }
    copy_range(s, from, to)
}

/// The text with a capital letter for each small letter from `a` to `z`.
pub open spec fn ascii_uppercase(s: Seq<char>) -> Seq<char> {
    Seq::new(s.len(), |i: int| ascii_upper(s[i]))
}

/// Turns the small letters from `a` to `z` of a text into capitals.
pub fn to_ascii_uppercase(s: &Vec<char>) -> (out: Vec<char>)
    ensures
        out@ == ascii_uppercase(s@),
{
    let mut out: Vec<char> = Vec::new();
    let mut i: usize = 0;
    while i < s.len()
        invariant
            i <= s.len(),
            out@ == ascii_uppercase(s@).take(i as int),
        decreases s.len() - i,
    {
        out.push(to_ascii_upper(s[i]));
        i += 1;
        assert(out@ =~= ascii_uppercase(s@).take(i as int));
    }
    assert(ascii_uppercase(s@).take(i as int) =~= ascii_uppercase(s@));
    out
}

/// What `str::to_lowercase` of the standard library makes of a text: its
/// lowercase form as Unicode defines it.
pub uninterp spec fn lowercase_of(s: Seq<char>) -> Seq<char>;

/// `str::to_lowercase` of the standard library: the lowercase form of a
/// text, which depends on the text alone.
#[verifier::external_body]
pub(crate) fn to_lowercase(s: &str) -> (r: String)
    ensures
        r@ == lowercase_of(s@),
{
    s.to_lowercase()
}

/// Tells whether a text is in a list.
pub fn has_text(list: &Vec<String>, text: &String) -> (found: bool)
    ensures
        found == texts_of(list@).contains(text@),
{
    let mut i: usize = 0;
    while i < list.len()
        invariant
            i <= list.len(),
            forall|j: int| 0 <= j < i ==> texts_of(list@)[j] != text@,
        decreases list.len() - i,
    {
        if list[i] == *text {
            assert(texts_of(list@)[i as int] == text@);
            return true;
        }
        i += 1;
    }
    false
}

} // verus!
