//! The ways in which a stage of the decoding can refuse its input.

use vstd::prelude::*;

verus! {

/// Why a stage refused its input. Each variant carries what identifies the
/// offending part of the input.
#[derive(Clone, Copy, Debug, PartialEq, Eq, Structural)]
pub enum ChrError {
    /// A token of the hex text is not one or two hexadecimal digits. `token`
    /// counts the tokens from 0, in the order of the text, and names the
    /// first such token.
    ParseError { token: usize },
    /// A palette slot is not a number from 0 to 63. `slot` is the position of
    /// the first such slot in the palette, from 0.
    InvalidPaletteSlot { slot: usize },
    /// The byte block ends in an incomplete tile: `len`, its length, is not a
    /// multiple of 16.
    MalformedTile { len: usize },
    /// There are more tiles than the grid has places: `tiles` tiles for
    /// `capacity` places.
    RasterOverflow { tiles: usize, capacity: usize },
}

} // verus!
