use bonsai_db_inspect::path_hex::{
    append_bit_to_path, child_paths, concat_paths, decode_path_bits, encode_path_bits, felt_hex_to_bits,
};
use bonsai_db_inspect::views::NodeView;

fn view(kind: &str, path_hex: Option<&str>) -> NodeView {
    NodeView {
        kind: kind.to_string(),
        height: 0,
        hash: None,
        left: None,
        right: None,
        child: None,
        path_len: None,
        path_hex: path_hex.map(|s| s.to_string()),
    }
}

#[test]
fn bit_list_codec() {
    assert_eq!(encode_path_bits(&vec![true, false, true]), vec![0x03, 0xa0]);
    assert_eq!(encode_path_bits(&vec![]), vec![0x00]);
    assert_eq!(decode_path_bits(&[0x03, 0xa0]), vec![true, false, true]);
    assert_eq!(decode_path_bits(&[]), Vec::<bool>::new());
}

#[test]
fn appending_a_bit() {
    assert_eq!(append_bit_to_path("0x00", true).as_deref(), Some("0x0180"));
    assert_eq!(append_bit_to_path("0x0180", false).as_deref(), Some("0x0280"));
    assert_eq!(append_bit_to_path("not hex", true).as_deref(), Some("0x0180"));
}

#[test]
fn concatenating_paths() {
    assert_eq!(concat_paths("0x0180", "0x0240").as_deref(), Some("0x03a0"));
    assert_eq!(concat_paths("0x00", "0x00").as_deref(), Some("0x00"));
}

#[test]
fn felt_hex_key_bits() {
    let bits = felt_hex_to_bits("0x01");
    assert_eq!(bits.len(), 251);
    assert!(bits[..250].iter().all(|b| !*b));
    assert!(bits[250]);
    assert!(felt_hex_to_bits("xyz").iter().all(|b| !*b));
}

#[test]
fn children_of_shown_nodes() {
    let kids = child_paths("0x00", &view("binary", None));
    assert_eq!(kids.len(), 2);
    assert_eq!(kids[0], ("0x0100".to_string(), "L".to_string()));
    assert_eq!(kids[1], ("0x0180".to_string(), "R".to_string()));
    let kids = child_paths("0x0180", &view("edge", Some("0x0240")));
    assert_eq!(kids, vec![("0x03a0".to_string(), "C".to_string())]);
    assert!(child_paths("0x00", &view("edge", None)).is_empty());
    let kids = child_paths(" 0x00 ", &view("edge", Some("0x0180")));
    assert_eq!(kids, vec![("0x0180".to_string(), "C".to_string())]);
}
