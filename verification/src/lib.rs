//! Decoding of NES pattern tables: hex text to bytes, bitplane bytes to pixel
//! indices, pixel indices to colours, and colours to a raster of 8x8 tiles.

pub mod color;
pub mod error;
pub mod hex_text;
pub mod interleave;
pub mod number;
pub mod palette;
pub mod pattern;
pub mod raster;
pub mod render;
pub mod text;

pub use color::Rgb;
pub use error::ChrError;
pub use hex_text::string_data_to_bytes;
pub use interleave::interleave_chr_bits;
pub use palette::{check_palette, nes_palette_vec_to_colors, parse_palette};
pub use pattern::{decode_pattern, nes_chr_to_palette_vec};
pub use raster::compose_tiles;
pub use render::render_pattern_table;
