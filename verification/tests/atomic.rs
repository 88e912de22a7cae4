use bitcell::atomic::{Atomic, AtomicElem16, AtomicElem32, AtomicElem64, AtomicElem8};
use bitcell::cursor::Cursor;
use bitcell::index::{BitIdx, BitWidth};
use bitcell::plain::{plain_clear, plain_get, plain_invert, plain_set};

#[test]
fn atomic_u8() {
    let mut atom = AtomicElem8::new(0);

    atom.set(Cursor::LittleEndian, BitIdx::new(0, BitWidth::W8).unwrap());
    assert_eq!(atom.get(), 1);

    atom.clear(Cursor::LittleEndian, BitIdx::new(0, BitWidth::W8).unwrap());
    assert_eq!(atom.get(), 0);

    atom.invert(Cursor::LittleEndian, BitIdx::new(1, BitWidth::W8).unwrap());
    assert_eq!(atom.get(), 2);
}

#[test]
fn atomic_u16() {
    let mut atom = AtomicElem16::new(0);

    atom.set(Cursor::LittleEndian, BitIdx::new(0, BitWidth::W16).unwrap());
    assert_eq!(atom.get(), 1);

    atom.clear(Cursor::LittleEndian, BitIdx::new(0, BitWidth::W16).unwrap());
    assert_eq!(atom.get(), 0);

    atom.invert(Cursor::LittleEndian, BitIdx::new(1, BitWidth::W16).unwrap());
    assert_eq!(atom.get(), 2);
}

#[test]
fn atomic_u32() {
    let mut atom = AtomicElem32::new(0);

    atom.set(Cursor::LittleEndian, BitIdx::new(0, BitWidth::W32).unwrap());
    assert_eq!(atom.get(), 1);

    atom.clear(Cursor::LittleEndian, BitIdx::new(0, BitWidth::W32).unwrap());
    assert_eq!(atom.get(), 0);

    atom.invert(Cursor::LittleEndian, BitIdx::new(1, BitWidth::W32).unwrap());
    assert_eq!(atom.get(), 2);
}

#[test]
fn atomic_u64() {
    let mut atom = AtomicElem64::new(0);

    atom.set(Cursor::LittleEndian, BitIdx::new(0, BitWidth::W64).unwrap());
    assert_eq!(atom.get(), 1);

    atom.clear(Cursor::LittleEndian, BitIdx::new(0, BitWidth::W64).unwrap());
    assert_eq!(atom.get(), 0);

    atom.invert(Cursor::LittleEndian, BitIdx::new(1, BitWidth::W64).unwrap());
    assert_eq!(atom.get(), 2);
}

#[test]
fn set_and_clear_leave_other_bits_unchanged() {
    // start from 0b0110; every mutation touches exactly the named bit
    let mut atom = AtomicElem8::new(0b0110);

    atom.set(Cursor::LittleEndian, BitIdx::new(0, BitWidth::W8).unwrap());
    assert_eq!(atom.get(), 0b0111);

    atom.clear(Cursor::LittleEndian, BitIdx::new(1, BitWidth::W8).unwrap());
    assert_eq!(atom.get(), 0b0101);

    atom.set(Cursor::BigEndian, BitIdx::new(0, BitWidth::W8).unwrap());
    assert_eq!(atom.get(), 0b1000_0101);
}

#[test]
fn invert_twice_restores_element() {
    let mut atom = AtomicElem16::new(0xbeef);
    let bit = BitIdx::new(5, BitWidth::W16).unwrap();

    atom.invert(Cursor::BigEndian, bit);
    assert_ne!(atom.get(), 0xbeef);

    atom.invert(Cursor::BigEndian, bit);
    assert_eq!(atom.get(), 0xbeef);
}

#[test]
fn disjoint_intents_commute_under_any_order() {
    // the same three intents on disjoint bits, in two serialization orders
    let start: u32 = 0xdead_0011;
    let b0 = BitIdx::new(0, BitWidth::W32).unwrap();
    let b7 = BitIdx::new(7, BitWidth::W32).unwrap();
    let b19 = BitIdx::new(19, BitWidth::W32).unwrap();

    let mut first = AtomicElem32::new(start);
    first.set(Cursor::LittleEndian, b0);
    first.invert(Cursor::LittleEndian, b7);
    first.clear(Cursor::LittleEndian, b19);

    let mut second = AtomicElem32::new(start);
    second.clear(Cursor::LittleEndian, b19);
    second.set(Cursor::LittleEndian, b0);
    second.invert(Cursor::LittleEndian, b7);

    assert_eq!(first.get(), second.get());
}

#[test]
fn plain_and_atomic_paths_agree() {
    // same intents through both access paths, under non-concurrent use
    let start: u64 = 0x00ff_00ff_0f0f_3333;
    let steps = [(0u8, 0u8), (1, 13), (2, 37), (0, 63), (1, 63), (2, 5)];

    let mut atom = AtomicElem64::new(start);
    let mut plain: u64 = start;
    for (op, pos) in steps {
        let bit = BitIdx::new(pos, BitWidth::W64).unwrap();
        match op {
            0 => {
                atom.set(Cursor::BigEndian, bit);
                plain_set(&mut plain, Cursor::BigEndian, bit);
            }
            1 => {
                atom.clear(Cursor::BigEndian, bit);
                plain_clear(&mut plain, Cursor::BigEndian, bit);
            }
            _ => {
                atom.invert(Cursor::BigEndian, bit);
                plain_invert(&mut plain, Cursor::BigEndian, bit);
            }
        }
        assert_eq!(atom.get(), plain_get(&plain));
    }
}

#[test]
fn get_reads_whole_element() {
    let atom = AtomicElem64::new(0x0123_4567_89ab_cdef);
    assert_eq!(atom.get(), 0x0123_4567_89ab_cdef);
}
