//! The pattern decoder: a block of tile bytes becomes the sequence of its
//! pixel indices, tile after tile, row after row, column after column.

use vstd::prelude::*;
use crate::error::ChrError;
use crate::interleave::{interleave_chr_bits, pixel_index, word_column};

verus! {

/// The number of bytes of one tile: eight of the low bitplane, then eight of
/// the high bitplane.
pub const TILE_BYTES: usize = 16;

/// The number of pixels of one tile: eight rows of eight.
pub const TILE_PIXELS: usize = 64;

/// The number of bytes of one whole pattern table of 256 tiles.
pub const PATTERN_TABLE_BYTES: usize = 4096;

/// The pixel index at position `k` of the decoded sequence. Position `k`
/// lies in tile `k / 64`, in row `(k % 64) / 8` of that tile and in column
/// `k % 8` of that row; the row's low bitplane byte is byte `row` of the
/// tile, its high bitplane byte is byte `row + 8`.
pub open spec fn pixel_at(bytes: Seq<u8>, k: int) -> u8
    recommends
        0 <= k < (bytes.len() / 16) * 64,
{
    let tile = k / 64;
    let row = (k % 64) / 8;
    let column = k % 8;
    pixel_index(bytes[tile * 16 + row], bytes[tile * 16 + row + 8], column as u8)
}

/// The pixel indices of all whole tiles of `bytes`, 64 for each tile.
pub open spec fn decoded(bytes: Seq<u8>) -> Seq<u8> {
    Seq::new(((bytes.len() / 16) * 64) as nat, |k: int| pixel_at(bytes, k))
}

/// Every decoded pixel index is one of 0, 1, 2, 3.
pub proof fn lemma_decoded_in_range(bytes: Seq<u8>, k: int)
    requires
        0 <= k < decoded(bytes).len(),
    ensures
        decoded(bytes)[k] <= 3,
{
    let tile = k / 64;
    let row = (k % 64) / 8;
    let column = (k % 8) as u8;
    crate::interleave::lemma_interleaved_columns(
        bytes[tile * 16 + row],
        bytes[tile * 16 + row + 8],
        column,
    );
}

/// Decoding is local to each tile and keeps the tiles' order: the pixel
/// indices of a block of whole tiles followed by further bytes are the pixel
/// indices of the block followed by those of the further bytes.
pub proof fn lemma_decoded_concat(first: Seq<u8>, second: Seq<u8>)
    requires
        first.len() % 16 == 0,
    ensures
        decoded(first + second) =~= decoded(first) + decoded(second),
{
    let whole = first + second;
    let tiles = first.len() as int / 16;
    assert(whole.len() == first.len() + second.len());
    assert(whole.len() as int / 16 == tiles + second.len() as int / 16);
    assert forall|k: int| 0 <= k < decoded(whole).len() implies decoded(whole)[k] == (decoded(
        first,
    ) + decoded(second))[k] by {
        let tile = k / 64;
        let row = (k % 64) / 8;
        if k < decoded(first).len() {
            assert(tile < tiles);
            assert(whole[tile * 16 + row] == first[tile * 16 + row]);
            assert(whole[tile * 16 + row + 8] == first[tile * 16 + row + 8]);
        } else {
            let j = k - decoded(first).len();
            assert(j / 64 == tile - tiles);
            assert(j % 64 == k % 64);
            assert(j % 8 == k % 8);
            assert(whole[tile * 16 + row] == second[(tile - tiles) * 16 + row]);
            assert(whole[tile * 16 + row + 8] == second[(tile - tiles) * 16 + row + 8]);
        }
    }
}

/// Decodes a block of whole tiles into its pixel indices.
pub fn nes_chr_to_palette_vec(chr_bytes: Vec<u8>) -> (indices: Vec<u8>)
    requires
        chr_bytes.len() % 16 == 0,
    ensures
        indices@ == decoded(chr_bytes@),
        indices.len() == chr_bytes.len() * 4,
        forall|k: int| 0 <= k < indices.len() ==> indices[k] <= 3,
{
    let mut buffer: Vec<u8> = Vec::new();
    let mut i: usize = 0;
    while i < chr_bytes.len()
        invariant
            chr_bytes.len() % 16 == 0,
            i % 16 == 0,
            i <= chr_bytes.len(),
            buffer.len() == i * 4,
            forall|k: int| 0 <= k < buffer.len() ==> buffer[k] == pixel_at(chr_bytes@, k),
        decreases chr_bytes.len() - i,
    {
        let mut j: usize = 0;
        while j < 8
            invariant
                chr_bytes.len() % 16 == 0,
                i % 16 == 0,
                i < chr_bytes.len(),
                j <= 8,
                buffer.len() == i * 4 + j * 8,
                forall|k: int| 0 <= k < buffer.len() ==> buffer[k] == pixel_at(chr_bytes@, k),
            decreases 8 - j,
        {
            let left_byte = chr_bytes[i + j];
            let right_byte = chr_bytes[i + j + 8];
            let palette_bits = interleave_chr_bits(left_byte, right_byte);
            let mut column: u8 = 0;
            while column < 8
                invariant
                    chr_bytes.len() % 16 == 0,
                    i % 16 == 0,
                    i < chr_bytes.len(),
                    j < 8,
                    column <= 8,
                    left_byte == chr_bytes[i + j],
                    right_byte == chr_bytes[i + j + 8],
                    buffer.len() == i * 4 + j * 8 + column,
                    forall|c: u8|
                        c < 8 ==> #[trigger] word_column(palette_bits, c) == pixel_index(
                            left_byte,
                            right_byte,
                            c,
                        ),
                    forall|k: int| 0 <= k < buffer.len() ==> buffer[k] == pixel_at(chr_bytes@, k),
                decreases 8 - column,
            {
                let shift: u8 = 14 - 2 * column;
                let group: u16 = (palette_bits >> shift) & 3;
                assert(group <= 3 && group as u8 == word_column(palette_bits, column))
                    by (bit_vector)
                    requires
                        column < 8,
                        shift == 14 - 2 * column,
                        group == (palette_bits >> shift) & 3,
                ;
                let to_push: u8 = group as u8;
                proof {
                    let k = buffer.len() as int;
                    assert(k / 64 == i / 16);
                    assert((k % 64) / 8 == j);
                    assert(k % 8 == column);
                }
                buffer.push(to_push);
                column = column + 1;
            }
            j = j + 1;
        }
        i = i + 16;
    }
    proof {
        assert(buffer@ =~= decoded(chr_bytes@));
        assert forall|k: int| 0 <= k < buffer.len() implies buffer[k] <= 3 by {
            lemma_decoded_in_range(chr_bytes@, k);
        }
    }
    buffer
}

/// Decodes a byte block into its pixel indices, and refuses a block that
/// ends in an incomplete tile.
pub fn decode_pattern(chr_bytes: Vec<u8>) -> (outcome: Result<Vec<u8>, ChrError>)
    ensures
        chr_bytes.len() % 16 == 0 ==> outcome is Ok && outcome->Ok_0@ == decoded(chr_bytes@),
        chr_bytes.len() % 16 != 0 ==> outcome == Err::<Vec<u8>, ChrError>(
            ChrError::MalformedTile { len: chr_bytes.len() },
        ),
{
    let len = chr_bytes.len();
    if len % TILE_BYTES != 0 {
        Err(ChrError::MalformedTile { len })
    } else {
        Ok(nes_chr_to_palette_vec(chr_bytes))
    }
}

} // verus!
