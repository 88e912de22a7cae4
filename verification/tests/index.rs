use bitcell::index::{BitIdx, BitWidth, IndexError};

#[test]
fn bitidx_in_range_succeeds() {
    let idx = BitIdx::new(7, BitWidth::W8).unwrap();
    assert_eq!(idx.value(), 7);
    assert_eq!(idx.width(), BitWidth::W8);
}

#[test]
fn bitidx_out_of_range_fails() {
    assert_eq!(BitIdx::new(8, BitWidth::W8), Err(IndexError { raw: 8 }));
}

#[test]
fn bitidx_bounds_per_width() {
    assert!(BitIdx::new(0, BitWidth::W8).is_ok());
    assert!(BitIdx::new(15, BitWidth::W16).is_ok());
    assert!(BitIdx::new(16, BitWidth::W16).is_err());
    assert!(BitIdx::new(31, BitWidth::W32).is_ok());
    assert!(BitIdx::new(32, BitWidth::W32).is_err());
    assert!(BitIdx::new(63, BitWidth::W64).is_ok());
    assert!(BitIdx::new(64, BitWidth::W64).is_err());
    assert!(BitIdx::new(255, BitWidth::W64).is_err());
}

#[test]
fn width_bits() {
    assert_eq!(BitWidth::W8.bits(), 8);
    assert_eq!(BitWidth::W16.bits(), 16);
    assert_eq!(BitWidth::W32.bits(), 32);
    assert_eq!(BitWidth::W64.bits(), 64);
}
