use nes_chr::interleave_chr_bits;

#[test]
fn test_interleave_chr_bits() {
    let result1 = interleave_chr_bits(0b00110011, 0b01010101);
    assert_eq!(result1, 0b0010011100100111);

    let result1 = interleave_chr_bits(0b00000000, 0b11111111);
    assert_eq!(result1, 0b1010101010101010);

    let result1 = interleave_chr_bits(0b11111111, 0b00000000);
    assert_eq!(result1, 0b0101010101010101);
}

#[test]
fn interleave_of_zero_planes_is_zero() {
    assert_eq!(interleave_chr_bits(0, 0), 0);
}

#[test]
fn interleave_of_full_planes_is_full() {
    assert_eq!(interleave_chr_bits(0xff, 0xff), 0xffff);
}

#[test]
fn interleave_puts_leftmost_pixel_in_top_bits() {
    assert_eq!(interleave_chr_bits(0x80, 0x00), 0x4000);
    assert_eq!(interleave_chr_bits(0x00, 0x80), 0x8000);
    assert_eq!(interleave_chr_bits(0x01, 0x00), 0x0001);
    assert_eq!(interleave_chr_bits(0x00, 0x01), 0x0002);
}

#[test]
fn interleave_matches_bit_formula_for_all_pairs() {
    for low in 0..=255u8 {
        for high in 0..=255u8 {
            let word = interleave_chr_bits(low, high);
            for column in 0..8u32 {
                let high_bit = ((high >> (7 - column)) & 1) as u16;
                let low_bit = ((low >> (7 - column)) & 1) as u16;
                assert_eq!((word >> (15 - 2 * column)) & 1, high_bit);
                assert_eq!((word >> (14 - 2 * column)) & 1, low_bit);
            }
        }
    }
}
