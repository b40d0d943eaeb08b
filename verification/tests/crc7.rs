use winc::crc7::{crc7, CRC7_POLYNOMIAL, CRC7_SEED};

/// The division written out bit by bit, to hold the library against.
fn by_long_division(data: &[u8]) -> u8 {
    let mut reg = CRC7_SEED;
    for byte in data {
        for k in 0..8 {
            let bit = (byte >> (7 - k)) & 1 == 1;
            let top = reg & 0x40 != 0;
            reg = (reg << 1) & 0x7F;
            if top != bit {
                reg ^= CRC7_POLYNOMIAL;
            }
        }
    }
    reg
}

#[test]
fn crc7_of_nothing_is_the_seed() {
    assert_eq!(CRC7_SEED, 0x7F);
    assert_eq!(CRC7_POLYNOMIAL, 0x09);
    assert_eq!(crc7(&[]), 0x7F);
}

#[test]
fn crc7_of_single_bytes() {
    assert_eq!(crc7(&[0x00]), 0x70);
    assert_eq!(crc7(&[0xFF]), 0x09);
}

#[test]
fn crc7_of_the_single_word_write_vector() {
    assert_eq!(crc7(&[0xC9, 0x00, 0x10, 0x00]), 0x60);
}

#[test]
fn crc7_of_command_frames() {
    assert_eq!(crc7(&[0xCA, 0x00, 0x10, 0x00]), 0x65);
    assert_eq!(crc7(&[0xC4, 0x00, 0x10, 0x00]), 0x77);
    assert_eq!(crc7(&[0xCF, 0xFF, 0xFF, 0xFF]), 0x55);
    assert_eq!(crc7(&[0xC1, 0x00, 0x00, 0x00, 0x00, 0x04]), 0x61);
    assert_eq!(crc7(&[0xC9, 0x00, 0x10, 0x00, 0x01, 0x02, 0x03, 0x04]), 0x36);
    assert_eq!(crc7(b"123456789"), 0x50);
}

#[test]
fn crc7_is_deterministic() {
    let payload = [0xC9, 0x00, 0x10, 0x00];
    let first = crc7(&payload);
    let second = crc7(&payload);
    assert_eq!(first, second);
    let copy = payload.to_vec();
    assert_eq!(crc7(&copy), first);
}

#[test]
fn crc7_has_seven_bits() {
    for a in 0..=255u8 {
        for b in [0x00u8, 0x3C, 0x81, 0xFF] {
            assert!(crc7(&[a, b]) < 0x80);
        }
    }
}

#[test]
fn crc7_agrees_with_long_division() {
    for a in 0..=255u8 {
        assert_eq!(crc7(&[a]), by_long_division(&[a]));
        assert_eq!(crc7(&[0xC3, a, 0x5A]), by_long_division(&[0xC3, a, 0x5A]));
    }
}

#[test]
fn crc7_changes_when_one_bit_changes() {
    let payload = [0xC9u8, 0x00, 0x10, 0x00, 0x01, 0x02, 0x03, 0x04];
    let good = crc7(&payload);
    for at in 0..payload.len() {
        for bit in 0..8 {
            let mut bad = payload;
            bad[at] ^= 1 << bit;
            assert_ne!(crc7(&bad), good);
        }
    }
}
