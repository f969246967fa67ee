//! The tile compositor: a flat sequence of colours, 64 for each tile, becomes
//! a raster in which the tiles stand in a grid, row by row.

use vstd::prelude::*;
use vstd::arithmetic::div_mod::{
    lemma_fundamental_div_mod,
    lemma_fundamental_div_mod_converse,
    lemma_multiply_divide_lt,
};
use image::DynamicImage;
use crate::color::Rgb;
use crate::error::ChrError;

verus! {

/// `image::DynamicImage`, taken as it is: proofs see nothing inside a value
/// of it, and learn what it holds from `rgb8_pixels` alone.
#[verifier::external_type_specification]
#[verifier::external_body]
pub struct ExDynamicImage(image::DynamicImage);

/// What an image of 8-bit RGB pixels holds: the map from each coordinate
/// `(x, y)` of the image, `x` counted from the left edge and `y` from the
/// top, to the red, green and blue channel of the pixel there. For an image
/// of another pixel format the map is empty.
pub uninterp spec fn rgb8_pixels(img: image::DynamicImage) -> Map<(int, int), (u8, u8, u8)>;

/// The coordinates of a raster of the given width and height.
pub open spec fn in_raster(p: (int, int), width: int, height: int) -> bool {
    0 <= p.0 < width && 0 <= p.1 < height
}

/// The raster of the given size in which every pixel is black.
pub open spec fn blank(width: int, height: int) -> Map<(int, int), (u8, u8, u8)> {
    Map::new(|p: (int, int)| in_raster(p, width, height), |p: (int, int)| (0u8, 0u8, 0u8))
}

/// Whether a buffer of three bytes for each pixel of a raster of this size
/// can be allocated on this machine.
pub open spec fn fits_in_memory(width: int, height: int) -> bool {
    3 * width <= usize::MAX && 3 * width * height <= isize::MAX
}

/// `image::DynamicImage::new_rgb8`: the new image has 8-bit RGB pixels,
/// `width` columns and `height` rows, and every channel of every pixel is 0.
/// The constructor panics where the byte length of the buffer, three times
/// `width` times `height`, cannot be computed or allocated; `requires`
/// leaves those sizes out.
#[verifier::external_body]
fn new_rgb8(width: u32, height: u32) -> (img: DynamicImage)
    requires
        fits_in_memory(width as int, height as int),
    ensures
        rgb8_pixels(img) == blank(width as int, height as int),
{
    DynamicImage::new_rgb8(width, height)
}

/// `image::GenericImage::put_pixel` of `image::DynamicImage`: in an image of
/// 8-bit RGB pixels the pixel at `(x, y)` takes the three channels of
/// `color`, and every other pixel stays as it was. The method panics on a
/// coordinate outside the image; `requires` leaves those out.
#[verifier::external_body]
fn put_pixel(img: &mut DynamicImage, x: u32, y: u32, color: Rgb)
    requires
        rgb8_pixels(*old(img)).dom().contains((x as int, y as int)),
    ensures
        rgb8_pixels(*final(img)) == rgb8_pixels(*old(img)).insert(
            (x as int, y as int),
            (color.r, color.g, color.b),
        ),
{
    image::GenericImage::put_pixel(img, x, y, image::Rgba([color.r, color.g, color.b, u8::MAX]));
}

/// The column of the raster in which the colour at flat position `i` lands:
/// tile `i / 64` stands in grid column `(i / 64) % tiles_per_row`, and
/// position `i % 64` of a tile is in column `(i % 64) % 8` of the tile.
pub open spec fn pixel_x(i: int, tiles_per_row: int) -> int {
    ((i / 64) % tiles_per_row) * 8 + (i % 64) % 8
}

/// The row of the raster in which the colour at flat position `i` lands:
/// tile `i / 64` stands in grid row `(i / 64) / tiles_per_row`, and
/// position `i % 64` of a tile is in row `(i % 64) / 8` of the tile.
pub open spec fn pixel_y(i: int, tiles_per_row: int) -> int {
    ((i / 64) / tiles_per_row) * 8 + (i % 64) / 8
}

/// The flat position of the colour that belongs at `(x, y)`: the pixel is in
/// tile `(x / 8, y / 8)` of the grid, at `(x % 8, y % 8)` within the tile.
pub open spec fn flat_index(x: int, y: int, tiles_per_row: int) -> int {
    ((y / 8) * tiles_per_row + x / 8) * 64 + (y % 8) * 8 + x % 8
}

/// The raster of a grid of `tiles_per_row` by `tiles_per_col` tiles that
/// holds the given colours: each pixel has the colour at its flat position,
/// and is black where the sequence has no colour for it.
pub open spec fn composed(colors: Seq<Rgb>, tiles_per_row: int, tiles_per_col: int) -> Map<
    (int, int),
    (u8, u8, u8),
> {
    Map::new(
        |p: (int, int)| in_raster(p, 8 * tiles_per_row, 8 * tiles_per_col),
        |p: (int, int)|
            if flat_index(p.0, p.1, tiles_per_row) < colors.len() {
                colors[flat_index(p.0, p.1, tiles_per_row)].channels()
            } else {
                (0u8, 0u8, 0u8)
            },
    )
}

/// The coordinate at which flat position `i` lands is the one whose flat
/// position is `i`, and it lies within the grid's columns.
pub proof fn lemma_flat_of_pixel(i: int, tiles_per_row: int)
    requires
        0 <= i,
        0 < tiles_per_row,
    ensures
        flat_index(pixel_x(i, tiles_per_row), pixel_y(i, tiles_per_row), tiles_per_row) == i,
        0 <= pixel_x(i, tiles_per_row) < 8 * tiles_per_row,
        0 <= pixel_y(i, tiles_per_row),
{
    let tile = i / 64;
    let tile_x = tile % tiles_per_row;
    let tile_y = tile / tiles_per_row;
    lemma_fundamental_div_mod(tile, tiles_per_row);
    vstd::arithmetic::div_mod::lemma_mod_bound(tile, tiles_per_row);
    vstd::arithmetic::div_mod::lemma_div_pos_is_pos(tile, tiles_per_row);
    assert(tile_y * tiles_per_row == tiles_per_row * tile_y) by (nonlinear_arith);
}

/// Each coordinate within the grid's columns is where its flat position
/// lands: no two coordinates share a flat position.
pub proof fn lemma_pixel_of_flat(x: int, y: int, tiles_per_row: int)
    requires
        0 <= x < 8 * tiles_per_row,
        0 <= y,
    ensures
        0 <= flat_index(x, y, tiles_per_row),
        pixel_x(flat_index(x, y, tiles_per_row), tiles_per_row) == x,
        pixel_y(flat_index(x, y, tiles_per_row), tiles_per_row) == y,
{
    let tile = (y / 8) * tiles_per_row + x / 8;
    assert(0 <= (y / 8) * tiles_per_row) by (nonlinear_arith)
        requires
            0 <= y / 8,
            0 < tiles_per_row,
    ;
    lemma_fundamental_div_mod_converse(tile, tiles_per_row, y / 8, x / 8);
}

/// Where the colours land: in the raster of a grid that has a place for
/// every tile, the colour at flat position `i` is the colour of the pixel in
/// column `pixel_x(i, tiles_per_row)` and row `pixel_y(i, tiles_per_row)`.
pub proof fn lemma_placement(colors: Seq<Rgb>, tiles_per_row: int, tiles_per_col: int, i: int)
    requires
        0 < tiles_per_row,
        0 <= tiles_per_col,
        colors.len() <= 64 * tiles_per_row * tiles_per_col,
        0 <= i < colors.len(),
    ensures
        composed(colors, tiles_per_row, tiles_per_col).dom().contains(
            (pixel_x(i, tiles_per_row), pixel_y(i, tiles_per_row)),
        ),
        composed(colors, tiles_per_row, tiles_per_col)[(
            pixel_x(i, tiles_per_row),
            pixel_y(i, tiles_per_row),
        )] == colors[i].channels(),
{
    lemma_flat_of_pixel(i, tiles_per_row);
    let tile = i / 64;
    assert(tile < tiles_per_row * tiles_per_col) by (nonlinear_arith)
        requires
            tile * 64 <= i,
            i < 64 * tiles_per_row * tiles_per_col,
    ;
    lemma_multiply_divide_lt(tile, tiles_per_row, tiles_per_col);
}

/// One more colour changes one pixel: the raster of the first `n + 1`
/// colours is the raster of the first `n` with the pixel at which position
/// `n` lands set to colour `n`.
pub proof fn lemma_composed_step(colors: Seq<Rgb>, tiles_per_row: int, tiles_per_col: int, n: int)
    requires
        0 < tiles_per_row,
        0 <= tiles_per_col,
        0 <= n < colors.len(),
        colors.len() <= 64 * tiles_per_row * tiles_per_col,
    ensures
        composed(colors.take(n + 1), tiles_per_row, tiles_per_col) == composed(
            colors.take(n),
            tiles_per_row,
            tiles_per_col,
        ).insert((pixel_x(n, tiles_per_row), pixel_y(n, tiles_per_row)), colors[n].channels()),
{
    let before = composed(colors.take(n), tiles_per_row, tiles_per_col);
    let after = composed(colors.take(n + 1), tiles_per_row, tiles_per_col);
    let place = (pixel_x(n, tiles_per_row), pixel_y(n, tiles_per_row));
    lemma_placement(colors, tiles_per_row, tiles_per_col, n);
    lemma_flat_of_pixel(n, tiles_per_row);
    assert forall|p: (int, int)| after.dom().contains(p) implies #[trigger] after[p]
        == before.insert(place, colors[n].channels())[p] by {
        lemma_pixel_of_flat(p.0, p.1, tiles_per_row);
    }
    assert(after =~= before.insert(place, colors[n].channels()));
}

/// Places the colours of a sequence of tiles in a grid of `tiles_per_row`
/// by `tiles_per_col` tiles, and refuses a sequence with more tiles than
/// the grid has places.
pub fn compose_tiles(colors: &Vec<Rgb>, tiles_per_row: u32, tiles_per_col: u32) -> (outcome: Result<
    DynamicImage,
    ChrError,
>)
    requires
        colors.len() % 64 == 0,
        8 * tiles_per_row <= u32::MAX,
        8 * tiles_per_col <= u32::MAX,
        fits_in_memory(8 * tiles_per_row, 8 * tiles_per_col),
    ensures
        outcome is Ok <==> colors.len() / 64 <= tiles_per_row * tiles_per_col,
        outcome is Ok ==> rgb8_pixels(outcome->Ok_0) == composed(
            colors@,
            tiles_per_row as int,
            tiles_per_col as int,
        ),
        outcome is Err ==> outcome->Err_0 == (ChrError::RasterOverflow {
            tiles: colors.len() / 64,
            capacity: (tiles_per_row * tiles_per_col) as usize,
        }),
{
    let tiles: usize = colors.len() / 64;
    assert(tiles_per_row * tiles_per_col <= 3 * (8 * tiles_per_row) * (8 * tiles_per_col))
        by (nonlinear_arith);
    let capacity: usize = (tiles_per_row as usize) * (tiles_per_col as usize);
    if tiles > capacity {
        return Err(ChrError::RasterOverflow { tiles, capacity });
    }
    let mut img = new_rgb8(8 * tiles_per_row, 8 * tiles_per_col);
    let mut n: usize = 0;
    assert(rgb8_pixels(img) =~= composed(
        colors@.take(0),
        tiles_per_row as int,
        tiles_per_col as int,
    ));
    while n < colors.len()
        invariant
            n <= colors.len(),
            colors.len() <= 64 * capacity,
            capacity == tiles_per_row * tiles_per_col,
            8 * tiles_per_row <= u32::MAX,
            8 * tiles_per_col <= u32::MAX,
            rgb8_pixels(img) == composed(
                colors@.take(n as int),
                tiles_per_row as int,
                tiles_per_col as int,
            ),
        decreases colors.len() - n,
    {
        assert(tiles_per_row > 0) by (nonlinear_arith)
            requires
                colors.len() <= 64 * (tiles_per_row * tiles_per_col),
                colors.len() > 0,
        ;
        proof {
            assert(64 * capacity == 64 * tiles_per_row * tiles_per_col) by (nonlinear_arith)
                requires
                    capacity == tiles_per_row * tiles_per_col,
            ;
            lemma_placement(colors@, tiles_per_row as int, tiles_per_col as int, n as int);
            lemma_composed_step(colors@, tiles_per_row as int, tiles_per_col as int, n as int);
        }
        let tile: usize = n / 64;
        let within: usize = n % 64;
        let tile_x: usize = tile % (tiles_per_row as usize);
        let tile_y: usize = tile / (tiles_per_row as usize);
        let pixel_x: u32 = (tile_x * 8 + within % 8) as u32;
        let pixel_y: u32 = (tile_y * 8 + within / 8) as u32;
        put_pixel(&mut img, pixel_x, pixel_y, colors[n]);
        n = n + 1;
    }
    assert(colors@.take(n as int) =~= colors@);
    Ok(img)
}

} // verus!
