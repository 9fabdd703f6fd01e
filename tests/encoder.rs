use ws2812_spi::pulse::{encode, COLOR_BITS, PULSE_BYTES};

fn buffer_bit(buf: &[u8; 9], q: usize) -> u8 {
    (buf[8 - q / 8] >> (q % 8)) & 1
}

fn group(buf: &[u8; 9], i: usize) -> u8 {
    (buffer_bit(buf, 3 * i + 2) << 2) | (buffer_bit(buf, 3 * i + 1) << 1) | buffer_bit(buf, 3 * i)
}

#[test]
fn encode_black_is_all_zero_codes() {
    let buf = encode(0x000000);
    assert_eq!(buf, [0x92, 0x49, 0x24, 0x92, 0x49, 0x24, 0x92, 0x49, 0x24]);
    for i in 0..COLOR_BITS {
        assert_eq!(group(&buf, i), 0b100);
    }
}

#[test]
fn encode_white_is_all_one_codes() {
    let buf = encode(0xFFFFFF);
    assert_eq!(buf, [0xDB, 0x6D, 0xB6, 0xDB, 0x6D, 0xB6, 0xDB, 0x6D, 0xB6]);
    for i in 0..COLOR_BITS {
        assert_eq!(group(&buf, i), 0b110);
    }
}

#[test]
fn encode_lowest_bit_lands_in_last_byte() {
    assert_eq!(
        encode(0x000001),
        [0x92, 0x49, 0x24, 0x92, 0x49, 0x24, 0x92, 0x49, 0x26]
    );
}

#[test]
fn encode_highest_bit_lands_in_first_byte() {
    assert_eq!(
        encode(0x800000),
        [0xD2, 0x49, 0x24, 0x92, 0x49, 0x24, 0x92, 0x49, 0x24]
    );
}

#[test]
fn encode_middle_byte() {
    assert_eq!(
        encode(0x00FF00),
        [0x92, 0x49, 0x24, 0xDB, 0x6D, 0xB6, 0x92, 0x49, 0x24]
    );
    assert_eq!(
        encode(0x000101),
        [0x92, 0x49, 0x24, 0x92, 0x49, 0x26, 0x92, 0x49, 0x26]
    );
}

#[test]
fn encode_length_is_fixed() {
    for v in [0u32, 1, 0x5A5A5A, 0xABCDEF, 0xFFFFFF] {
        assert_eq!(encode(v).len(), PULSE_BYTES);
    }
}

#[test]
fn encode_groups_follow_bits() {
    for v in [0x5A5A5Au32, 0xABCDEF, 0x123456, 0x800001] {
        let buf = encode(v);
        for i in 0..COLOR_BITS {
            let expected = if (v >> i) & 1 == 1 { 0b110 } else { 0b100 };
            assert_eq!(group(&buf, i), expected);
        }
    }
}

#[test]
fn encode_distinct_colors_differ() {
    let values = [0u32, 1, 2, 0x100, 0x800000, 0x7FFFFF, 0xFFFFFF, 0x00FF00];
    for (a, va) in values.iter().enumerate() {
        for (b, vb) in values.iter().enumerate() {
            assert_eq!(a == b, encode(*va) == encode(*vb));
        }
    }
}

#[test]
fn encode_single_bit_changes_differ() {
    let base = encode(0x000000);
    for i in 0..COLOR_BITS {
        assert_ne!(encode(1u32 << i), base);
    }
}

#[test]
fn encode_word_groups_decode_back() {
    for v in [0u32, 1, 0x320000, 0x5A5A5A, 0xABCDEF, 0xFFFFFF] {
        let buf = encode(v);
        let word = buf.iter().fold(0u128, |w, b| (w << 8) | *b as u128);
        assert_eq!(word >> 72, 0);
        let mut decoded: u32 = 0;
        for i in 0..COLOR_BITS {
            let expected = if (v >> i) & 1 == 1 { 0b110 } else { 0b100 };
            assert_eq!((word >> (3 * i)) & 7, expected);
            decoded |= (((word >> (3 * i + 1)) & 1) as u32) << i;
        }
        assert_eq!(decoded, v);
    }
}
