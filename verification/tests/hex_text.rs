use nes_chr::hex_text::parse_hex_byte;
use nes_chr::{string_data_to_bytes, ChrError};

fn word(s: &str) -> Vec<char> {
    s.chars().collect()
}

#[test]
fn empty_hex_text_gives_no_bytes() {
    assert_eq!(string_data_to_bytes(String::new()), Ok(Vec::new()));
}

#[test]
fn blank_hex_text_gives_no_bytes() {
    assert_eq!(string_data_to_bytes(String::from("  \n\t \r\n")), Ok(Vec::new()));
}

#[test]
fn hex_text_gives_bytes_in_token_order() {
    assert_eq!(
        string_data_to_bytes(String::from("41 c2 44 48 10 20 40 80")),
        Ok(vec![0x41, 0xc2, 0x44, 0x48, 0x10, 0x20, 0x40, 0x80])
    );
}

#[test]
fn hex_text_takes_one_digit_and_either_case() {
    assert_eq!(
        string_data_to_bytes(String::from("0 f F 0a Ab fF 00 7")),
        Ok(vec![0x00, 0x0f, 0x0f, 0x0a, 0xab, 0xff, 0x00, 0x07])
    );
}

#[test]
fn hex_text_takes_newlines_as_separators() {
    assert_eq!(
        string_data_to_bytes(String::from("01 02\n03 04\r\n05\n\n06\t07\n")),
        Ok(vec![1, 2, 3, 4, 5, 6, 7])
    );
}

#[test]
fn hex_text_names_the_first_invalid_token() {
    assert_eq!(
        string_data_to_bytes(String::from("zz")),
        Err(ChrError::ParseError { token: 0 })
    );
    assert_eq!(
        string_data_to_bytes(String::from("41 4g 42 xx")),
        Err(ChrError::ParseError { token: 1 })
    );
    assert_eq!(
        string_data_to_bytes(String::from("\n 41 42 43\n 0x44")),
        Err(ChrError::ParseError { token: 3 })
    );
}

#[test]
fn hex_text_refuses_tokens_of_more_than_two_digits() {
    assert_eq!(
        string_data_to_bytes(String::from("00 100")),
        Err(ChrError::ParseError { token: 1 })
    );
    assert_eq!(
        string_data_to_bytes(String::from("041")),
        Err(ChrError::ParseError { token: 0 })
    );
    assert_eq!(
        string_data_to_bytes(String::from("4142")),
        Err(ChrError::ParseError { token: 0 })
    );
}

#[test]
fn hex_text_refuses_signs() {
    assert_eq!(
        string_data_to_bytes(String::from("+1")),
        Err(ChrError::ParseError { token: 0 })
    );
    assert_eq!(
        string_data_to_bytes(String::from("1 -1")),
        Err(ChrError::ParseError { token: 1 })
    );
}

#[test]
fn hex_text_of_a_whole_table_has_4096_bytes() {
    let mut text = String::new();
    for k in 0..4096u32 {
        text.push_str(&format!("{:02X}", k % 256));
        text.push(if k % 16 == 15 { '\n' } else { ' ' });
    }
    let bytes = string_data_to_bytes(text).unwrap();
    assert_eq!(bytes.len(), 4096);
    for k in 0..4096usize {
        assert_eq!(bytes[k], (k % 256) as u8);
    }
}

#[test]
fn parse_hex_byte_reads_one_or_two_digits() {
    assert_eq!(parse_hex_byte(&word("0")), Some(0));
    assert_eq!(parse_hex_byte(&word("a")), Some(10));
    assert_eq!(parse_hex_byte(&word("10")), Some(16));
    assert_eq!(parse_hex_byte(&word("fF")), Some(255));
    assert_eq!(parse_hex_byte(&word("")), None);
    assert_eq!(parse_hex_byte(&word("000")), None);
    assert_eq!(parse_hex_byte(&word("g")), None);
    assert_eq!(parse_hex_byte(&word("1 ")), None);
}
