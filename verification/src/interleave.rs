//! The bitplane interleaver: two bitplane bytes of one tile row become one
//! 16-bit word that holds the row's eight 2-bit pixel indices, leftmost pixel
//! in the two most significant bits.

use vstd::prelude::*;

verus! {

/// The 2-bit pixel index of pixel column `column` (0 is the leftmost) of a
/// tile row whose low bitplane byte is `low` and whose high bitplane byte is
/// `high`: bit `7 - column` of `high` is the more significant bit, bit
/// `7 - column` of `low` the less significant one.
pub open spec fn pixel_index(low: u8, high: u8, column: u8) -> u8
    recommends
        column < 8,
{
    (((high >> (7 - column) as u8) & 1) << 1) | ((low >> (7 - column) as u8) & 1)
}

/// The 2-bit group of `word` that belongs to pixel column `column`: bits
/// `15 - 2 * column` and `14 - 2 * column`.
pub open spec fn word_column(word: u16, column: u8) -> u8
    recommends
        column < 8,
{
    ((word >> (14 - 2 * column) as u16) & 3) as u8
}

/// The pixel index of one column, moved to that column's place in the word.
pub open spec fn column_bits(low: u8, high: u8, column: u8) -> u16
    recommends
        column < 8,
{
    (pixel_index(low, high, column) as u16) << (14 - 2 * column) as u16
}

/// The interleaved word of a tile row: the eight pixel indices side by side,
/// column 0 in bits 15 and 14, column 7 in bits 1 and 0.
pub open spec fn interleaved(low: u8, high: u8) -> u16 {
    column_bits(low, high, 0) | column_bits(low, high, 1) | column_bits(low, high, 2)
        | column_bits(low, high, 3) | column_bits(low, high, 4) | column_bits(low, high, 5)
        | column_bits(low, high, 6) | column_bits(low, high, 7)
}

/// The part of the interleaved word that the first `columns` columns fill;
/// the bits of the later columns are zero.
pub open spec fn interleaved_prefix(low: u8, high: u8, columns: u8) -> u16
    recommends
        columns <= 8,
{
    interleaved(low, high) & !(0xffffu16 >> (2 * columns) as u16)
}

/// Every column of the interleaved word holds that column's pixel index, and
/// a pixel index is one of 0, 1, 2, 3.
pub proof fn lemma_interleaved_columns(low: u8, high: u8, column: u8)
    requires
        column < 8,
    ensures
        word_column(interleaved(low, high), column) == pixel_index(low, high, column),
        pixel_index(low, high, column) <= 3,
{
    assert(word_column(interleaved(low, high), column) == pixel_index(low, high, column)
        && pixel_index(low, high, column) <= 3) by (bit_vector)
        requires
            column < 8,
    ;
}

/// A 16-bit word is fixed by its eight columns: two words that agree on
/// every column are the same word.
pub proof fn lemma_word_fixed_by_columns(a: u16, b: u16)
    requires
        forall|column: u8| column < 8 ==> word_column(a, column) == word_column(b, column),
    ensures
        a == b,
{
    assert(word_column(a, 0) == word_column(b, 0));
    assert(word_column(a, 1) == word_column(b, 1));
    assert(word_column(a, 2) == word_column(b, 2));
    assert(word_column(a, 3) == word_column(b, 3));
    assert(word_column(a, 4) == word_column(b, 4));
    assert(word_column(a, 5) == word_column(b, 5));
    assert(word_column(a, 6) == word_column(b, 6));
    assert(word_column(a, 7) == word_column(b, 7));
    assert(a == b) by (bit_vector)
        requires
            word_column(a, 0) == word_column(b, 0),
            word_column(a, 1) == word_column(b, 1),
            word_column(a, 2) == word_column(b, 2),
            word_column(a, 3) == word_column(b, 3),
            word_column(a, 4) == word_column(b, 4),
            word_column(a, 5) == word_column(b, 5),
            word_column(a, 6) == word_column(b, 6),
            word_column(a, 7) == word_column(b, 7),
    ;
}

/// Combines the low bitplane byte `bitplane0` and the high bitplane byte
/// `bitplane1` of one tile row into the word of its eight pixel indices.
pub fn interleave_chr_bits(bitplane0: u8, bitplane1: u8) -> (word: u16)
    ensures
        word == interleaved(bitplane0, bitplane1),
        forall|column: u8|
            column < 8 ==> #[trigger] word_column(word, column) == pixel_index(
                bitplane0,
                bitplane1,
                column,
            ),
{
    let mut out: u16 = 0;
    let mut i: u8 = 0;
    assert(interleaved_prefix(bitplane0, bitplane1, 0) == 0) by (bit_vector);
    while i < 8
        invariant
            i <= 8,
            out == interleaved_prefix(bitplane0, bitplane1, i),
        decreases 8 - i,
    {
        let high_bit: u16 = ((bitplane1 >> (7 - i)) & 1) as u16;
        let low_bit: u16 = ((bitplane0 >> (7 - i)) & 1) as u16;
        let next: u16 = out | (high_bit << (15 - 2 * i)) | (low_bit << (14 - 2 * i));
        assert(next == interleaved_prefix(bitplane0, bitplane1, (i + 1) as u8)) by (bit_vector)
            requires
                i < 8,
                out == interleaved_prefix(bitplane0, bitplane1, i),
                high_bit == ((bitplane1 >> (7 - i) as u8) & 1) as u16,
                low_bit == ((bitplane0 >> (7 - i) as u8) & 1) as u16,
                next == out | (high_bit << (15 - 2 * i) as u16) | (low_bit << (14 - 2 * i) as u16),
        ;
        out = next;
        i = i + 1;
    }
    assert(interleaved_prefix(bitplane0, bitplane1, 8) == interleaved(bitplane0, bitplane1))
        by (bit_vector);
    assert forall|column: u8| column < 8 implies #[trigger] word_column(out, column)
        == pixel_index(bitplane0, bitplane1, column) by {
        lemma_interleaved_columns(bitplane0, bitplane1, column);
    }
    out
}

} // verus!
