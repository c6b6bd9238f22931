use wordle::text::{
    chars_of, format_decimal, is_space, join_chars, lines_of, parse_decimal, parse_signed,
    parse_usize, split_chars, string_of, string_of_range, to_ascii_upper, to_ascii_uppercase, trim,
    InvalidNumber,
};

fn chars(s: &str) -> Vec<char> {
    s.chars().collect()
}

fn texts(pieces: Vec<Vec<char>>) -> Vec<String> {
    pieces.into_iter().map(|p| p.into_iter().collect()).collect()
}

#[test]
fn characters_of_a_string() {
    assert_eq!(chars_of("a\u{e9}z"), vec!['a', '\u{e9}', 'z']);
    assert_eq!(chars_of(""), Vec::<char>::new());
}

#[test]
fn string_of_characters() {
    assert_eq!(string_of(&vec!['a', 'b', '\u{e9}']), "ab\u{e9}");
    assert_eq!(string_of(&vec![]), "");
    assert_eq!(string_of_range(&chars("hello"), 1, 3), "el");
}

#[test]
fn numbers_are_written_in_decimal() {
    assert_eq!(format_decimal(0), chars("0"));
    assert_eq!(format_decimal(7), chars("7"));
    assert_eq!(format_decimal(10), chars("10"));
    assert_eq!(format_decimal(1905), chars("1905"));
    assert_eq!(format_decimal(usize::MAX), chars(&usize::MAX.to_string()));
}

#[test]
fn numerals_are_read() {
    assert_eq!(parse_decimal(&chars("0")), Some(0));
    assert_eq!(parse_decimal(&chars("42")), Some(42));
    assert_eq!(parse_decimal(&chars("+42")), Some(42));
    assert_eq!(parse_decimal(&chars("007")), Some(7));
    assert_eq!(parse_decimal(&chars(&usize::MAX.to_string())), Some(usize::MAX));
}

#[test]
fn what_is_no_numeral_is_refused() {
    assert_eq!(parse_decimal(&chars("")), None);
    assert_eq!(parse_decimal(&chars("+")), None);
    assert_eq!(parse_decimal(&chars("-1")), None);
    assert_eq!(parse_decimal(&chars("1 ")), None);
    assert_eq!(parse_decimal(&chars("12a")), None);
    assert_eq!(parse_decimal(&chars("++1")), None);
    assert_eq!(parse_decimal(&chars("18446744073709551616")), None);
    assert_eq!(parse_decimal(&chars("99999999999999999999999")), None);
    assert_eq!(parse_usize("x"), Err(InvalidNumber));
    assert_eq!(parse_usize("12"), Ok(12));
}

#[test]
fn written_numbers_are_read_back() {
    for n in [0usize, 1, 9, 10, 99, 100, 12345, usize::MAX - 1, usize::MAX] {
        assert_eq!(parse_decimal(&format_decimal(n)), Some(n));
    }
}

#[test]
fn signed_numerals_are_read() {
    assert_eq!(parse_signed(&chars("3")), Some(3));
    assert_eq!(parse_signed(&chars("+3")), Some(3));
    assert_eq!(parse_signed(&chars("-3")), Some(-3));
    assert_eq!(parse_signed(&chars("-0")), Some(0));
    assert_eq!(parse_signed(&chars(&isize::MAX.to_string())), Some(isize::MAX));
    assert_eq!(parse_signed(&chars(&isize::MIN.to_string())), Some(isize::MIN));
    assert_eq!(parse_signed(&chars("9223372036854775808")), None);
    assert_eq!(parse_signed(&chars("-9223372036854775809")), None);
    assert_eq!(parse_signed(&chars("-")), None);
    assert_eq!(parse_signed(&chars("")), None);
    assert_eq!(parse_signed(&chars("-+1")), None);
    assert_eq!(parse_signed(&chars("1.5")), None);
}

#[test]
fn text_is_split_at_each_separator() {
    assert_eq!(texts(split_chars(&chars("a,b,c"), ',')), vec!["a", "b", "c"]);
    assert_eq!(texts(split_chars(&chars("abc"), ',')), vec!["abc"]);
    assert_eq!(texts(split_chars(&chars(""), ',')), vec![""]);
    assert_eq!(texts(split_chars(&chars(",a,,b,"), ',')), vec!["", "a", "", "b", ""]);
}

#[test]
fn joining_undoes_splitting() {
    for text in ["", "a", "a,b", ",", ",,x,", "one,two,three"] {
        assert_eq!(join_chars(&split_chars(&chars(text), ','), ','), chars(text));
    }
    assert_eq!(join_chars(&vec![], ','), chars(""));
    assert_eq!(join_chars(&vec![chars("a"), chars(""), chars("b")], '-'), chars("a--b"));
}

#[test]
fn lines_end_at_line_feeds() {
    assert_eq!(texts(lines_of(&chars("a\nb\nc"))), vec!["a", "b", "c"]);
    assert_eq!(texts(lines_of(&chars("a\nb\nc\n"))), vec!["a", "b", "c"]);
    assert_eq!(texts(lines_of(&chars("a\r\nb\r\n"))), vec!["a", "b"]);
    assert_eq!(texts(lines_of(&chars("a\n\nb"))), vec!["a", "", "b"]);
    assert_eq!(texts(lines_of(&chars(""))), Vec::<String>::new());
    assert_eq!(texts(lines_of(&chars("\n"))), vec![""]);
    assert_eq!(texts(lines_of(&chars("a\r"))), vec!["a\r"]);
    assert_eq!(texts(lines_of(&chars("a\rb\n"))), vec!["a\rb"]);
}

#[test]
fn lines_agree_with_the_standard_library() {
    for text in ["", "\n", "x", "x\n", "x\r\n", "x\r", "\r\n\r\n", "a\nb\r\nc\r", "\n\na\n\n"] {
        let expected: Vec<String> = text.lines().map(str::to_owned).collect();
        assert_eq!(texts(lines_of(&chars(text))), expected);
    }
}

#[test]
fn white_space_around_a_text_is_trimmed() {
    assert_eq!(trim(&chars("  hello world \t\r\n")), chars("hello world"));
    assert_eq!(trim(&chars("hello")), chars("hello"));
    assert_eq!(trim(&chars(" \n ")), chars(""));
    assert_eq!(trim(&chars("")), chars(""));
    assert_eq!(trim(&chars("\u{a0}x\u{3000}")), chars("x"));
}

#[test]
fn trimming_agrees_with_the_standard_library() {
    for code in 0u32..0x3100 {
        if let Some(c) = char::from_u32(code) {
            let text: String = [c, 'a', c].iter().collect();
            assert_eq!(trim(&chars(&text)), chars(text.trim()));
        }
    }
}

#[test]
fn small_letters_become_capitals() {
    assert_eq!(to_ascii_uppercase(&chars("trace")), chars("TRACE"));
    assert_eq!(to_ascii_uppercase(&chars("TrAcE 12 \u{e9}z")), chars("TRACE 12 \u{e9}Z"));
    assert_eq!(to_ascii_uppercase(&chars("`{az")), chars("`{AZ"));
}

#[test]
fn white_space_is_what_the_standard_library_says() {
    for code in 0u32..=0x10ffff {
        if let Some(c) = char::from_u32(code) {
            assert_eq!(is_space(c), c.is_whitespace(), "{:x}", code);
            assert_eq!(to_ascii_upper(c), c.to_ascii_uppercase(), "{:x}", code);
        }
    }
}
