//! The whole way from the bytes of a pattern table to its picture: decode,
//! map through the palette, and place the tiles in a grid of 16 by 16.

use vstd::prelude::*;
use image::DynamicImage;
use crate::color::Rgb;
use crate::error::ChrError;
use crate::palette::{check_palette, mapped, nes_palette_vec_to_colors, valid_palette};
use crate::pattern::{decode_pattern, decoded};
use crate::raster::{compose_tiles, composed, rgb8_pixels};

verus! {

/// The number of tiles in one row of the grid, and of rows in the grid.
pub const GRID_TILES: u32 = 16;

/// The picture of a byte block: the colours of its decoded pixel indices,
/// placed in the grid of 16 by 16 tiles.
pub open spec fn rendered(chr_bytes: Seq<u8>, palette: Seq<u8>, master: Seq<Rgb>) -> Map<
    (int, int),
    (u8, u8, u8),
> {
    composed(mapped(decoded(chr_bytes), palette, master), 16, 16)
}

/// The error with which a byte block and a palette are refused, if they
/// are. The palette is looked at first, then the block's length for an
/// incomplete tile, then the number of tiles.
pub open spec fn render_error(len: usize, palette: Seq<u8>, e: ChrError) -> bool {
    if !valid_palette(palette) {
        e is InvalidPaletteSlot && crate::palette::first_slot_out_of_range(
            palette,
            e->InvalidPaletteSlot_slot as int,
        )
    } else if len % 16 != 0 {
        e == (ChrError::MalformedTile { len })
    } else {
        len / 16 > 256 && e == (ChrError::RasterOverflow {
            tiles: (len / 16) as usize,
            capacity: 256,
        })
    }
}

/// Renders the bytes of a pattern table. A block of fewer than 256 tiles
/// fills the first places of the grid and leaves the others black.
pub fn render_pattern_table(chr_bytes: Vec<u8>, palette: [u8; 4], master: &[Rgb; 64]) -> (outcome:
    Result<DynamicImage, ChrError>)
    ensures
        outcome is Ok <==> valid_palette(palette@) && chr_bytes.len() % 16 == 0 && chr_bytes.len()
            / 16 <= 256,
        outcome is Ok ==> rgb8_pixels(outcome->Ok_0) == rendered(chr_bytes@, palette@, master@),
        outcome is Err ==> render_error(chr_bytes.len(), palette@, outcome->Err_0),
{
    match check_palette(&palette) {
        Err(e) => {
            return Err(e);
        },
        Ok(_) => {},
    }
    let ghost bytes = chr_bytes@;
    let indices = match decode_pattern(chr_bytes) {
        Err(e) => {
            return Err(e);
        },
        Ok(indices) => indices,
    };
    proof {
        assert forall|k: int| 0 <= k < indices.len() implies indices[k] <= 3 by {
            crate::pattern::lemma_decoded_in_range(bytes, k);
        }
    }
    let colors = nes_palette_vec_to_colors(indices, palette, master);
    compose_tiles(&colors, GRID_TILES, GRID_TILES)
}

} // verus!
