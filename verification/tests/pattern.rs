use nes_chr::pattern::{PATTERN_TABLE_BYTES, TILE_BYTES, TILE_PIXELS};
use nes_chr::{decode_pattern, nes_chr_to_palette_vec, ChrError};

#[test]
fn test_nes_chr_to_palette_vec() {
    let chr_bytes: Vec<u8> = vec![
        0x41, 0xc2, 0x44, 0x48, 0x10, 0x20, 0x40, 0x80, 0x01, 0x02, 0x04, 0x08, 0x16, 0x21,
        0x42, 0x87,
    ];
    let result1 = nes_chr_to_palette_vec(chr_bytes);
    assert_eq!(
        result1,
        [
            0, 1, 0, 0, 0, 0, 0, 3, 1, 1, 0, 0, 0, 0, 3, 0, 0, 1, 0, 0, 0, 3, 0, 0, 0, 1, 0, 0,
            3, 0, 0, 0, 0, 0, 0, 3, 0, 2, 2, 0, 0, 0, 3, 0, 0, 0, 0, 2, 0, 3, 0, 0, 0, 0, 2, 0,
            3, 0, 0, 0, 0, 2, 2, 2,
        ]
    );

    let chr_bytes: Vec<u8> = vec![
        0x41, 0xc2, 0x44, 0x48, 0x10, 0x20, 0x40, 0x80, 0x01, 0x02, 0x04, 0x08, 0x16, 0x21,
        0x42, 0x87, 0x41, 0xc2, 0x44, 0x48, 0x10, 0x20, 0x40, 0x80, 0x01, 0x02, 0x04, 0x08,
        0x16, 0x21, 0x42, 0x87,
    ];
    let result1 = nes_chr_to_palette_vec(chr_bytes);
    assert_eq!(
        result1,
        [
            0, 1, 0, 0, 0, 0, 0, 3, 1, 1, 0, 0, 0, 0, 3, 0, 0, 1, 0, 0, 0, 3, 0, 0, 0, 1, 0, 0,
            3, 0, 0, 0, 0, 0, 0, 3, 0, 2, 2, 0, 0, 0, 3, 0, 0, 0, 0, 2, 0, 3, 0, 0, 0, 0, 2, 0,
            3, 0, 0, 0, 0, 2, 2, 2, 0, 1, 0, 0, 0, 0, 0, 3, 1, 1, 0, 0, 0, 0, 3, 0, 0, 1, 0, 0,
            0, 3, 0, 0, 0, 1, 0, 0, 3, 0, 0, 0, 0, 0, 0, 3, 0, 2, 2, 0, 0, 0, 3, 0, 0, 0, 0, 2,
            0, 3, 0, 0, 0, 0, 2, 0, 3, 0, 0, 0, 0, 2, 2, 2,
        ]
    );
}

fn sample_tile(seed: u8) -> Vec<u8> {
    (0..16u8).map(|k| k.wrapping_mul(37).wrapping_add(seed).rotate_left(3)).collect()
}

#[test]
fn decoding_empty_block_gives_no_pixels() {
    assert_eq!(nes_chr_to_palette_vec(Vec::new()), Vec::<u8>::new());
}

#[test]
fn decoding_gives_64_indices_per_tile_all_in_range() {
    let mut block = sample_tile(1);
    block.extend(sample_tile(2));
    block.extend(sample_tile(3));
    let indices = nes_chr_to_palette_vec(block);
    assert_eq!(indices.len(), 3 * TILE_PIXELS);
    assert!(indices.iter().all(|&n| n <= 3));
}

#[test]
fn decoding_reads_low_plane_from_first_eight_bytes() {
    let mut tile = vec![0u8; 16];
    tile[0] = 0x80;
    tile[8 + 7] = 0x01;
    let indices = nes_chr_to_palette_vec(tile);
    let mut expected = vec![0u8; 64];
    expected[0] = 1;
    expected[63] = 2;
    assert_eq!(indices, expected);
}

#[test]
fn decoding_matches_bit_formula_at_every_position() {
    let mut block = sample_tile(11);
    block.extend(sample_tile(200));
    let indices = nes_chr_to_palette_vec(block.clone());
    for k in 0..indices.len() {
        let tile = k / 64;
        let row = (k % 64) / 8;
        let column = k % 8;
        let low = block[tile * 16 + row];
        let high = block[tile * 16 + row + 8];
        let expected = (((high >> (7 - column)) & 1) << 1) | ((low >> (7 - column)) & 1);
        assert_eq!(indices[k], expected);
    }
}

#[test]
fn decoding_two_blocks_joined_is_joining_their_decodings() {
    let first = {
        let mut b = sample_tile(5);
        b.extend(sample_tile(6));
        b
    };
    let second = sample_tile(77);
    let mut joined = first.clone();
    joined.extend(second.clone());
    let mut expected = nes_chr_to_palette_vec(first);
    expected.extend(nes_chr_to_palette_vec(second));
    assert_eq!(nes_chr_to_palette_vec(joined), expected);
}

#[test]
fn decode_pattern_accepts_whole_tiles() {
    let tile = sample_tile(9);
    assert_eq!(decode_pattern(tile.clone()), Ok(nes_chr_to_palette_vec(tile)));
    assert_eq!(decode_pattern(Vec::new()), Ok(Vec::new()));
}

#[test]
fn decode_pattern_refuses_incomplete_tile() {
    assert_eq!(decode_pattern(vec![0u8; 15]), Err(ChrError::MalformedTile { len: 15 }));
    assert_eq!(decode_pattern(vec![0u8; 17]), Err(ChrError::MalformedTile { len: 17 }));
    assert_eq!(decode_pattern(vec![0u8; 1]), Err(ChrError::MalformedTile { len: 1 }));
}

#[test]
fn whole_pattern_table_decodes_to_16384_indices() {
    assert_eq!(PATTERN_TABLE_BYTES, 256 * TILE_BYTES);
    let indices = nes_chr_to_palette_vec(vec![0xffu8; PATTERN_TABLE_BYTES]);
    assert_eq!(indices.len(), 16384);
    assert!(indices.iter().all(|&n| n == 3));
}
