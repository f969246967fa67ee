use nes_chr::number::{parse_digit, parse_number, Radix};
use nes_chr::text::{chars_of, is_whitespace_char, split_whitespace};

fn word(s: &str) -> Vec<char> {
    s.chars().collect()
}

#[test]
fn chars_of_keeps_every_character() {
    assert_eq!(chars_of(""), Vec::<char>::new());
    assert_eq!(chars_of("a b"), vec!['a', ' ', 'b']);
    assert_eq!(chars_of("é\u{3000}z"), vec!['é', '\u{3000}', 'z']);
}

#[test]
fn whitespace_is_what_the_standard_library_calls_whitespace() {
    for code in 0..=0x10ffffu32 {
        if let Some(c) = char::from_u32(code) {
            assert_eq!(is_whitespace_char(c), c.is_whitespace(), "U+{:04X}", code);
        }
    }
}

#[test]
fn split_whitespace_of_blank_text_is_empty() {
    assert_eq!(split_whitespace(""), Vec::<Vec<char>>::new());
    assert_eq!(split_whitespace(" \t\r\n \u{a0}"), Vec::<Vec<char>>::new());
}

#[test]
fn split_whitespace_gives_the_runs_in_order() {
    assert_eq!(split_whitespace("41"), vec![word("41")]);
    assert_eq!(
        split_whitespace("  41\tc2\n\n44 \r\n48  "),
        vec![word("41"), word("c2"), word("44"), word("48")]
    );
}

#[test]
fn split_whitespace_agrees_with_the_standard_library() {
    let samples = [
        "",
        " ",
        "a",
        " a",
        "a ",
        "ab  cd\tef\n",
        "\n\n0x1f 7\u{2003}008\u{85}z",
        "one\u{3000}two\u{1680}three",
    ];
    for text in samples {
        let expected: Vec<Vec<char>> = text.split_whitespace().map(word).collect();
        assert_eq!(split_whitespace(text), expected);
    }
}

#[test]
fn parse_digit_reads_both_bases() {
    assert_eq!(parse_digit('0', Radix::Decimal), Some(0));
    assert_eq!(parse_digit('9', Radix::Decimal), Some(9));
    assert_eq!(parse_digit('a', Radix::Decimal), None);
    assert_eq!(parse_digit('a', Radix::Hex), Some(10));
    assert_eq!(parse_digit('F', Radix::Hex), Some(15));
    assert_eq!(parse_digit('g', Radix::Hex), None);
    assert_eq!(parse_digit('/', Radix::Hex), None);
    assert_eq!(parse_digit(':', Radix::Hex), None);
    assert_eq!(parse_digit('@', Radix::Hex), None);
    assert_eq!(parse_digit('`', Radix::Hex), None);
    assert_eq!(parse_digit('+', Radix::Decimal), None);
}

#[test]
fn parse_number_reads_up_to_the_bound() {
    assert_eq!(parse_number(&word("255"), 0, Radix::Decimal, 255), Some(255));
    assert_eq!(parse_number(&word("256"), 0, Radix::Decimal, 255), None);
    assert_eq!(parse_number(&word("ff"), 0, Radix::Hex, 255), Some(255));
    assert_eq!(parse_number(&word("100"), 0, Radix::Hex, 255), None);
    assert_eq!(parse_number(&word("63"), 0, Radix::Decimal, 63), Some(63));
    assert_eq!(parse_number(&word("64"), 0, Radix::Decimal, 63), None);
    assert_eq!(parse_number(&word("0000000000000000000000012"), 0, Radix::Decimal, 63), Some(12));
    assert_eq!(parse_number(&word("99999999999999999999999999"), 0, Radix::Decimal, 255), None);
}

#[test]
fn parse_number_starts_where_told_and_wants_a_digit() {
    assert_eq!(parse_number(&word("0x1f"), 2, Radix::Hex, 255), Some(31));
    assert_eq!(parse_number(&word("0x"), 2, Radix::Hex, 255), None);
    assert_eq!(parse_number(&word(""), 0, Radix::Decimal, 255), None);
    assert_eq!(parse_number(&word("1f"), 0, Radix::Decimal, 255), None);
    assert_eq!(parse_number(&word("-1"), 0, Radix::Decimal, 255), None);
    assert_eq!(parse_number(&word("+1"), 0, Radix::Decimal, 255), None);
}
