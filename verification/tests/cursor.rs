use bitcell::cursor::Cursor;
use bitcell::index::{BitIdx, BitWidth};

#[test]
fn little_endian_masks() {
    let m0 = Cursor::LittleEndian.mask(BitIdx::new(0, BitWidth::W8).unwrap());
    let m7 = Cursor::LittleEndian.mask(BitIdx::new(7, BitWidth::W8).unwrap());
    assert_eq!(m0, 1);
    assert_eq!(m7, 128);
}

#[test]
fn big_endian_masks() {
    let m0 = Cursor::BigEndian.mask(BitIdx::new(0, BitWidth::W8).unwrap());
    let m7 = Cursor::BigEndian.mask(BitIdx::new(7, BitWidth::W8).unwrap());
    assert_eq!(m0, 128);
    assert_eq!(m7, 1);

    let top = Cursor::BigEndian.mask(BitIdx::new(0, BitWidth::W64).unwrap());
    assert_eq!(top, 1u64 << 63);
}

#[test]
fn masks_are_a_bijection_for_every_width_and_policy() {
    for (width, bits) in [
        (BitWidth::W8, 8u8),
        (BitWidth::W16, 16),
        (BitWidth::W32, 32),
        (BitWidth::W64, 64),
    ] {
        for cursor in [Cursor::BigEndian, Cursor::LittleEndian] {
            let mut masks: Vec<u64> = Vec::new();
            for p in 0..bits {
                let m = cursor.mask(BitIdx::new(p, width).unwrap());
                // exactly one bit set
                assert_eq!(m.count_ones(), 1);
                // within the width
                if bits < 64 {
                    assert!(m < 1u64 << bits);
                }
                // distinct from every earlier position's mask
                assert!(!masks.contains(&m));
                masks.push(m);
            }
            // every bit of the element is reachable
            let all: u64 = masks.iter().fold(0, |a, m| a | m);
            let expected: u64 = if bits == 64 { u64::MAX } else { (1u64 << bits) - 1 };
            assert_eq!(all, expected);
        }
    }
}
