//! The hex-text parser: text that holds one byte per token, each written as
//! one or two hexadecimal digits, becomes the sequence of those bytes.

use vstd::prelude::*;
use crate::error::ChrError;
use crate::number::{bounded_number, parse_number, Radix};
use crate::text::{split_whitespace, tokens, views};

verus! {

/// The byte that the token `t` stands for: `t` is one or two hexadecimal
/// digits, in either case, and nothing else.
pub open spec fn hex_byte(t: Seq<char>) -> Option<u8> {
    if t.len() <= 2 {
        bounded_number(t, Radix::Hex, 255)
    } else {
        None
    }
}

/// Whether every token of the list stands for a byte.
pub open spec fn all_hex_bytes(list: Seq<Seq<char>>) -> bool {
    forall|k: int| 0 <= k < list.len() ==> hex_byte(#[trigger] list[k]) is Some
}

/// Whether token `k` is the first of the list that stands for no byte.
pub open spec fn first_invalid_byte(list: Seq<Seq<char>>, k: int) -> bool {
    &&& 0 <= k < list.len()
    &&& hex_byte(list[k]) is None
    &&& forall|j: int| 0 <= j < k ==> hex_byte(#[trigger] list[j]) is Some
}

/// The bytes that the tokens of the list stand for, in the tokens' order.
pub open spec fn hex_bytes(list: Seq<Seq<char>>) -> Seq<u8>
    recommends
        all_hex_bytes(list),
{
    Seq::new(list.len(), |k: int| hex_byte(list[k]).unwrap())
}

/// A text of whitespace alone, the empty text among them, holds no byte and
/// no invalid token.
pub proof fn lemma_blank_text_has_no_bytes(s: Seq<char>)
    requires
        forall|k: int| 0 <= k < s.len() ==> crate::text::is_whitespace(s[k]),
    ensures
        all_hex_bytes(tokens(s)),
        hex_bytes(tokens(s)) == Seq::<u8>::empty(),
{
    crate::text::lemma_blank_text_has_no_tokens(s);
    assert(hex_bytes(tokens(s)) =~= Seq::<u8>::empty());
}

/// Reads one token as a byte.
pub fn parse_hex_byte(token: &Vec<char>) -> (byte: Option<u8>)
    ensures
        byte == hex_byte(token@),
{
    if token.len() > 2 {
        None
    } else {
        assert(token@.skip(0) =~= token@);
        parse_number(token, 0, Radix::Hex, 255)
    }
}

/// Reads the bytes of a hex text. The outcome is the bytes of all tokens if
/// every token stands for a byte, and otherwise the error that names the
/// first token that does not.
pub fn string_data_to_bytes(data: String) -> (outcome: Result<Vec<u8>, ChrError>)
    ensures
        outcome is Ok <==> all_hex_bytes(tokens(data@)),
        outcome is Ok ==> outcome->Ok_0@ == hex_bytes(tokens(data@)),
        outcome is Err ==> outcome->Err_0 is ParseError && first_invalid_byte(
            tokens(data@),
            outcome->Err_0->ParseError_token as int,
        ),
{
    let parts = split_whitespace(data.as_str());
    let ghost list = tokens(data@);
    let mut buffer: Vec<u8> = Vec::new();
    let mut i: usize = 0;
    while i < parts.len()
        invariant
            i <= parts.len(),
            list == tokens(data@),
            views(parts@) == list,
            buffer.len() == i,
            forall|k: int| 0 <= k < i ==> hex_byte(#[trigger] list[k]) == Some(buffer[k]),
        decreases parts.len() - i,
    {
        assert(list[i as int] == parts[i as int]@);
        match parse_hex_byte(&parts[i]) {
            Some(byte) => {
                buffer.push(byte);
            },
            None => {
                assert(first_invalid_byte(list, i as int));
                return Err(ChrError::ParseError { token: i });
            },
        }
        i = i + 1;
    }
    assert(buffer@ =~= hex_bytes(list));
    Ok(buffer)
}

} // verus!
