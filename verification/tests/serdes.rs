use bitcell::cursor::Cursor;
use bitcell::index::BitWidth;
use bitcell::serdes::{decode, encode, to_json, BitRepr, BitSeq, DecodeError};

fn bits(pattern: &[u8]) -> Vec<bool> {
    pattern.iter().map(|&b| b != 0).collect()
}

#[test]
fn encode_eight_bits_big_endian() {
    let s = bits(&[1, 0, 1, 1, 0, 0, 1, 0]);
    let r = encode(Cursor::BigEndian, BitWidth::W8, &s);
    assert_eq!(r.head, 0);
    assert_eq!(r.bits, 8);
    assert_eq!(r.data, vec![178]);
}

#[test]
fn wire_text_matches_compatibility_surface() {
    let s = bits(&[1, 0, 1, 1, 0, 0, 1, 0]);
    let r = encode(Cursor::BigEndian, BitWidth::W8, &s);
    let json = to_json(&r);
    assert_eq!(json, b"{\"head\":0,\"bits\":8,\"data\":[178]}".to_vec());
}

#[test]
fn wire_text_of_several_elements() {
    let r = BitRepr { head: 3, bits: 10, data: vec![178, 0, 255] };
    let json = to_json(&r);
    assert_eq!(json, b"{\"head\":3,\"bits\":10,\"data\":[178,0,255]}".to_vec());
}

#[test]
fn encode_little_endian_differs() {
    let s = bits(&[1, 0, 1, 1, 0, 0, 1, 0]);
    let r = encode(Cursor::LittleEndian, BitWidth::W8, &s);
    // bit 0 is the least significant end: 1 + 4 + 8 + 64
    assert_eq!(r.data, vec![77]);
}

#[test]
fn encode_partial_and_multiple_elements() {
    let s = bits(&[1, 1, 0, 0, 0, 0, 0, 0, 1, 0, 1]);
    let r = encode(Cursor::BigEndian, BitWidth::W8, &s);
    assert_eq!(r.bits, 11);
    assert_eq!(r.data, vec![0b1100_0000, 0b1010_0000]);

    let r16 = encode(Cursor::BigEndian, BitWidth::W16, &s);
    assert_eq!(r16.data, vec![0b1100_0000_1010_0000]);
}

#[test]
fn encode_empty_sequence() {
    let s: Vec<bool> = Vec::new();
    let r = encode(Cursor::BigEndian, BitWidth::W8, &s);
    assert_eq!(r.head, 0);
    assert_eq!(r.bits, 0);
    assert_eq!(r.data, Vec::<u64>::new());
    assert_eq!(to_json(&r), b"{\"head\":0,\"bits\":0,\"data\":[]}".to_vec());
}

#[test]
fn round_trip_is_bit_for_bit() {
    let patterns: Vec<Vec<bool>> = vec![
        bits(&[1, 0, 1, 1, 0, 0, 1, 0]),
        bits(&[1]),
        bits(&[0, 0, 0]),
        bits(&[1, 1, 1, 1, 1, 1, 1, 1, 1]),
        (0..100).map(|i| i % 3 == 0).collect(),
        Vec::new(),
    ];
    for s in patterns {
        for cursor in [Cursor::BigEndian, Cursor::LittleEndian] {
            for width in [BitWidth::W8, BitWidth::W16, BitWidth::W32, BitWidth::W64] {
                let r = encode(cursor, width, &s);
                let t = decode(cursor, width, &r).unwrap().to_bools();
                assert_eq!(t, s);
            }
        }
    }
}

#[test]
fn decode_rejects_head_out_of_range() {
    let r = BitRepr { head: 8, bits: 8, data: vec![0] };
    assert_eq!(decode(Cursor::BigEndian, BitWidth::W8, &r).unwrap_err(), DecodeError::HeadOutOfRange);
}

#[test]
fn decode_rejects_inconsistent_length() {
    let short = BitRepr { head: 0, bits: 8, data: vec![] };
    assert_eq!(decode(Cursor::BigEndian, BitWidth::W8, &short).unwrap_err(), DecodeError::LengthMismatch);

    let long = BitRepr { head: 0, bits: 8, data: vec![1, 2] };
    assert_eq!(decode(Cursor::BigEndian, BitWidth::W8, &long).unwrap_err(), DecodeError::LengthMismatch);
}

#[test]
fn decode_honours_head_offset() {
    // live range of 4 bits starting at offset 6 spans two 8-bit elements
    let r = BitRepr { head: 6, bits: 4, data: vec![0b0000_0011, 0b1000_0000] };
    let t = decode(Cursor::BigEndian, BitWidth::W8, &r).unwrap().to_bools();
    assert_eq!(t, bits(&[1, 1, 1, 0]));
}

#[test]
fn decode_head_boundary_per_width() {
    let r = BitRepr { head: 16, bits: 1, data: vec![0] };
    assert_eq!(decode(Cursor::BigEndian, BitWidth::W16, &r).unwrap_err(), DecodeError::HeadOutOfRange);
    assert!(decode(Cursor::BigEndian, BitWidth::W32, &r).is_ok());
}

#[test]
fn encode_of_decode_is_identity() {
    // includes a nonzero head and a representation whose pad bit carries junk
    let cases = vec![
        BitRepr { head: 0, bits: 8, data: vec![178] },
        BitRepr { head: 1, bits: 7, data: vec![127] },
        BitRepr { head: 1, bits: 7, data: vec![255] },
        BitRepr { head: 3, bits: 10, data: vec![1, 2] },
        BitRepr { head: 0, bits: 0, data: vec![] },
        BitRepr { head: 7, bits: 0, data: vec![] },
    ];
    for x in cases {
        let v = decode(Cursor::BigEndian, BitWidth::W8, &x).unwrap();
        let y = v.encode();
        assert_eq!(y, x);
    }
}

#[test]
fn view_with_offset_encodes_its_head() {
    let s = bits(&[1, 1, 1, 1, 1, 1, 1]);
    let v = BitSeq::new(Cursor::BigEndian, BitWidth::W8, 1, &s);
    assert_eq!(v.head(), 1);
    assert_eq!(v.len(), 7);
    assert_eq!(v.width(), BitWidth::W8);
    assert_eq!(v.cursor(), Cursor::BigEndian);
    assert_eq!(v.to_bools(), s);
    let y = v.encode();
    assert_eq!(y, BitRepr { head: 1, bits: 7, data: vec![127] });
}

#[test]
fn view_round_trips_through_the_wire_form() {
    let s = bits(&[0, 1, 0, 0, 1, 1, 0, 1, 1, 1, 0]);
    let v = BitSeq::new(Cursor::LittleEndian, BitWidth::W8, 5, &s);
    let x = v.encode();
    let w = decode(Cursor::LittleEndian, BitWidth::W8, &x).unwrap();
    assert_eq!(w.to_bools(), s);
    assert_eq!(w.head(), 5);
    assert_eq!(w.encode(), x);
}
