use bonsai_db_inspect::felt::Felt;
use bonsai_db_inspect::path::{felt_to_path, path_to_felt, PathBits};

fn path_of(bits: &[bool]) -> PathBits {
    PathBits::from_bits(&bits.to_vec())
}

#[test]
fn empty_path_encodes_as_single_zero() {
    let p = PathBits::default();
    assert_eq!(p.to_bytes(), vec![0x00]);
    let back = PathBits::from_encoded(&[0x00]);
    assert_eq!(back.len(), 0);
    assert!(back.is_empty());
}

#[test]
fn empty_input_decodes_to_empty_path() {
    assert!(PathBits::from_encoded(&[]).is_empty());
}

#[test]
fn single_bit_path() {
    let p = path_of(&[true]);
    assert_eq!(p.to_bytes(), vec![0x01, 0x80]);
    assert_eq!(PathBits::from_encoded(&[0x01, 0x80]).to_bits(), vec![true]);
}

#[test]
fn three_bit_path_101() {
    let p = path_of(&[true, false, true]);
    assert_eq!(p.to_bytes(), vec![0x03, 0b1010_0000]);
    assert_eq!(PathBits::from_encoded(&[0x03, 0b1010_0000]).to_bits(), vec![true, false, true]);
}

#[test]
fn padding_bits_are_ignored_on_decode() {
    let dirty = PathBits::from_encoded(&[0x03, 0b1011_1111]);
    assert_eq!(dirty.to_bits(), vec![true, false, true]);
    assert_eq!(dirty.to_bytes(), vec![0x03, 0b1010_0000]);
}

#[test]
fn decode_stops_at_end_of_input() {
    let short = PathBits::from_encoded(&[0x10, 0xff]);
    assert_eq!(short.len(), 8);
}

#[test]
fn round_trip_of_nine_bits() {
    let bits = vec![true, true, false, false, true, false, true, true, true];
    let p = PathBits::from_bits(&bits);
    let bytes = p.to_bytes();
    assert_eq!(bytes, vec![0x09, 0b1100_1011, 0b1000_0000]);
    assert_eq!(PathBits::from_encoded(&bytes).to_bits(), bits);
}

#[test]
fn round_trip_of_251_bits() {
    let bits: Vec<bool> = (0..251).map(|i| i % 3 == 0 || i % 7 == 0).collect();
    let p = PathBits::from_bits(&bits);
    let bytes = p.to_bytes();
    assert_eq!(bytes.len(), 1 + 32);
    assert_eq!(bytes[0], 251);
    assert_eq!(PathBits::from_encoded(&bytes), p);
}

#[test]
fn push_extend_and_with_bit() {
    let mut p = PathBits::default();
    p.push(true);
    let q = path_of(&[false, true]);
    p.extend_from_bitslice(&q);
    assert_eq!(p.to_bits(), vec![true, false, true]);
    let r = p.with_bit(false);
    assert_eq!(r.to_bits(), vec![true, false, true, false]);
    assert_eq!(p.len(), 3);
}

#[test]
fn felt_to_path_of_zero_and_one() {
    let zero = felt_to_path(&Felt::zero());
    assert_eq!(zero.len(), 251);
    assert!(zero.to_bits().iter().all(|b| !*b));
    let one = felt_to_path(&Felt::from_u64(1));
    let bits = one.to_bits();
    assert_eq!(bits.len(), 251);
    assert!(bits[..250].iter().all(|b| !*b));
    assert!(bits[250]);
}

#[test]
fn path_to_felt_right_aligns() {
    let p = path_of(&[true, false, true]);
    assert_eq!(path_to_felt(&p), Felt::from_u64(5));
    assert_eq!(path_to_felt(&PathBits::default()), Felt::zero());
}

#[test]
fn felt_path_round_trip_clears_top_five_bits() {
    let f = Felt::from_hex("0x800000000000011000000000000000000000000000000000000000000000000").unwrap();
    let back = path_to_felt(&felt_to_path(&f));
    let expected = Felt::from_hex("0x11000000000000000000000000000000000000000000000000").unwrap();
    assert_eq!(back, expected);
    let small = Felt::from_u64(0xdead_beef);
    assert_eq!(path_to_felt(&felt_to_path(&small)), small);
}
