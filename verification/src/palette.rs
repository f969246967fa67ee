//! The palette: four slots, each the number of one of the 64 colours of the
//! master palette, and the mapping of pixel indices to colours through it.

use vstd::prelude::*;
use crate::color::Rgb;
use crate::error::ChrError;
use crate::number::{bounded_number, parse_number, Radix};
use crate::text::{split_whitespace, tokens, views};

verus! {

/// The number of slots of a palette.
pub const PALETTE_SLOTS: usize = 4;

/// The number of colours of the master palette.
pub const MASTER_COLORS: usize = 64;

/// Whether `t` starts with `0x` or `0X`.
pub open spec fn has_hex_prefix(t: Seq<char>) -> bool {
    t.len() >= 2 && t[0] == '0' && (t[1] == 'x' || t[1] == 'X')
}

/// The slot that the token `t` stands for: a decimal number, or a
/// hexadecimal number behind `0x` or `0X`, that is at most 63.
pub open spec fn palette_slot(t: Seq<char>) -> Option<u8> {
    if has_hex_prefix(t) {
        bounded_number(t.skip(2), Radix::Hex, 63)
    } else {
        bounded_number(t, Radix::Decimal, 63)
    }
}

/// How many tokens of the list a palette takes: the first four, or all of
/// them if there are fewer.
pub open spec fn slots_given(list: Seq<Seq<char>>) -> int {
    if list.len() < 4 {
        list.len() as int
    } else {
        4
    }
}

/// Whether each token that the palette takes stands for a slot.
pub open spec fn all_palette_slots(list: Seq<Seq<char>>) -> bool {
    forall|k: int| 0 <= k < slots_given(list) ==> palette_slot(#[trigger] list[k]) is Some
}

/// Whether token `k` is the first that the palette takes and that stands
/// for no slot.
pub open spec fn first_invalid_slot(list: Seq<Seq<char>>, k: int) -> bool {
    &&& 0 <= k < slots_given(list)
    &&& palette_slot(list[k]) is None
    &&& forall|j: int| 0 <= j < k ==> palette_slot(#[trigger] list[j]) is Some
}

/// The palette that the tokens of the list give: slot `k` is what token `k`
/// stands for, and 0 where the list has no token `k`.
pub open spec fn palette_of(list: Seq<Seq<char>>) -> Seq<u8>
    recommends
        all_palette_slots(list),
{
    Seq::new(
        4,
        |k: int|
            if k < list.len() {
                palette_slot(list[k]).unwrap()
            } else {
                0u8
            },
    )
}

/// Whether every slot of the palette names a colour of the master palette.
pub open spec fn valid_palette(palette: Seq<u8>) -> bool {
    palette.len() == 4 && forall|k: int| 0 <= k < 4 ==> palette[k] < 64
}

/// Whether slot `k` is the first of the palette that names no colour of the
/// master palette.
pub open spec fn first_slot_out_of_range(palette: Seq<u8>, k: int) -> bool {
    &&& 0 <= k < palette.len()
    &&& palette[k] >= 64
    &&& forall|j: int| 0 <= j < k ==> palette[j] < 64
}

/// The colours of a sequence of pixel indices: each index picks a slot of
/// the palette, and the slot picks a colour of the master palette.
pub open spec fn mapped(indices: Seq<u8>, palette: Seq<u8>, master: Seq<Rgb>) -> Seq<Rgb>
    recommends
        valid_palette(palette),
        master.len() == 64,
        forall|k: int| 0 <= k < indices.len() ==> indices[k] <= 3,
{
    Seq::new(indices.len(), |k: int| master[palette[indices[k] as int] as int])
}

/// A palette read from text is valid.
pub proof fn lemma_palette_of_is_valid(list: Seq<Seq<char>>)
    requires
        all_palette_slots(list),
    ensures
        valid_palette(palette_of(list)),
{
    assert forall|k: int| 0 <= k < 4 implies palette_of(list)[k] < 64 by {
        if k < list.len() {
            assert(palette_slot(list[k]) is Some);
        }
    }
}

/// Reads one token as a palette slot.
pub fn parse_palette_slot(token: &Vec<char>) -> (slot: Option<u8>)
    ensures
        slot == palette_slot(token@),
{
    if token.len() >= 2 && token[0] == '0' && (token[1] == 'x' || token[1] == 'X') {
        parse_number(token, 2, Radix::Hex, 63)
    } else {
        assert(token@.skip(0) =~= token@);
        parse_number(token, 0, Radix::Decimal, 63)
    }
}

/// Reads a palette from text. The first four tokens give the slots 0 to 3;
/// a slot without a token is 0, and tokens after the fourth are not read.
/// The outcome is the palette if each token read stands for a slot, and
/// otherwise the error that names the first that does not.
pub fn parse_palette(palette_str: &str) -> (outcome: Result<[u8; 4], ChrError>)
    ensures
        outcome is Ok <==> all_palette_slots(tokens(palette_str@)),
        outcome is Ok ==> outcome->Ok_0@ == palette_of(tokens(palette_str@)) && valid_palette(
            outcome->Ok_0@,
        ),
        outcome is Err ==> outcome->Err_0 is InvalidPaletteSlot && first_invalid_slot(
            tokens(palette_str@),
            outcome->Err_0->InvalidPaletteSlot_slot as int,
        ),
{
    let colors = split_whitespace(palette_str);
    let ghost list = tokens(palette_str@);
    let mut result: [u8; 4] = [0u8, 0u8, 0u8, 0u8];
    let count: usize = if colors.len() < 4 {
        colors.len()
    } else {
        4
    };
    let mut i: usize = 0;
    while i < count
        invariant
            i <= count,
            count == slots_given(list),
            list == tokens(palette_str@),
            views(colors@) == list,
            forall|k: int| 0 <= k < i ==> palette_slot(#[trigger] list[k]) == Some(result[k]),
            forall|k: int| i <= k < 4 ==> result[k] == 0,
        decreases count - i,
    {
        assert(list[i as int] == colors[i as int]@);
        match parse_palette_slot(&colors[i]) {
            Some(slot) => {
                result[i] = slot;
            },
            None => {
                assert(first_invalid_slot(list, i as int));
                return Err(ChrError::InvalidPaletteSlot { slot: i });
            },
        }
        i = i + 1;
    }
    proof {
        assert(result@ =~= palette_of(list));
        lemma_palette_of_is_valid(list);
    }
    Ok(result)
}

/// Checks that every slot of a palette names a colour of the master palette;
/// the error names the first slot that does not.
pub fn check_palette(palette: &[u8; 4]) -> (outcome: Result<(), ChrError>)
    ensures
        outcome is Ok <==> valid_palette(palette@),
        outcome is Err ==> outcome->Err_0 is InvalidPaletteSlot && first_slot_out_of_range(
            palette@,
            outcome->Err_0->InvalidPaletteSlot_slot as int,
        ),
{
    let mut i: usize = 0;
    while i < 4
        invariant
            i <= 4,
            forall|k: int| 0 <= k < i ==> palette[k] < 64,
        decreases 4 - i,
    {
        if palette[i] >= 64 {
            return Err(ChrError::InvalidPaletteSlot { slot: i });
        }
        i = i + 1;
    }
    Ok(())
}

/// Maps pixel indices to colours: index `n` becomes the colour of the master
/// palette that slot `n` of the palette names.
pub fn nes_palette_vec_to_colors(
    nes_palette_vec: Vec<u8>,
    palette: [u8; 4],
    master: &[Rgb; 64],
) -> (pixels: Vec<Rgb>)
    requires
        forall|k: int| 0 <= k < nes_palette_vec.len() ==> nes_palette_vec[k] <= 3,
        valid_palette(palette@),
    ensures
        pixels@ == mapped(nes_palette_vec@, palette@, master@),
        pixels.len() == nes_palette_vec.len(),
        forall|k: int|
            0 <= k < pixels.len() ==> pixels[k] == master[palette[nes_palette_vec[k] as int] as int],
{
    let mut pixels: Vec<Rgb> = Vec::new();
    let mut i: usize = 0;
    while i < nes_palette_vec.len()
        invariant
            i <= nes_palette_vec.len(),
            forall|k: int| 0 <= k < nes_palette_vec.len() ==> nes_palette_vec[k] <= 3,
            valid_palette(palette@),
            pixels.len() == i,
            forall|k: int|
                0 <= k < i ==> pixels[k] == master[palette[nes_palette_vec[k] as int] as int],
        decreases nes_palette_vec.len() - i,
    {
        let n: u8 = nes_palette_vec[i];
        let slot: u8 = palette[n as usize];
        pixels.push(master[slot as usize]);
        i = i + 1;
    }
    assert(pixels@ =~= mapped(nes_palette_vec@, palette@, master@));
    pixels
}

} // verus!
