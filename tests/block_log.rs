use bonsai_db_inspect::diff::{block_log_prefix, in_block_log, parse_trie_key, read_block_log};
use bonsai_db_inspect::path::PathBits;
use bonsai_db_inspect::trie::TrieKind;

fn log_key(block: u64, sep: u8, trie_key: &[u8], key_type: u8, change: u8) -> Vec<u8> {
    let mut k = block.to_be_bytes().to_vec();
    k.push(sep);
    k.extend_from_slice(trie_key);
    k.push(key_type);
    k.push(change);
    k
}

fn contract_key(bits: &[bool]) -> Vec<u8> {
    let mut k = b"0xcontract".to_vec();
    k.extend(PathBits::from_bits(&bits.to_vec()).to_bytes());
    k
}

#[test]
fn prefix_of_a_block() {
    assert_eq!(block_log_prefix(5), vec![0, 0, 0, 0, 0, 0, 0, 5, 0]);
    assert_eq!(block_log_prefix(0x0102), vec![0, 0, 0, 0, 0, 0, 1, 2, 0]);
    let prefix = block_log_prefix(5);
    assert!(in_block_log(&prefix, &log_key(5, 0, b"x", 0, 0)));
    assert!(!in_block_log(&prefix, &log_key(5, 1, b"x", 0, 0)));
}

#[test]
fn log_scan_stops_at_the_next_family() {
    let rows = vec![
        (log_key(5, 0, &contract_key(&[true]), 0, 0), vec![1]),
        (log_key(5, 0, &contract_key(&[false, true]), 1, 1), vec![2]),
        (log_key(5, 1, &contract_key(&[true]), 0, 0), vec![3]),
        (log_key(6, 0, &contract_key(&[true]), 0, 0), vec![4]),
    ];
    let entries = read_block_log(&rows, 5);
    assert_eq!(entries.len(), 2);
    assert_eq!(entries[0].value, vec![1]);
    assert_eq!(entries[1].value, vec![2]);
    assert!(entries.iter().all(|e| e.block == 5));
    assert_eq!(entries[1].key_type, 1);
    assert_eq!(entries[1].change_type, 1);
    assert_eq!(entries[1].key_bits.as_ref().unwrap().to_bits(), vec![false, true]);
}

#[test]
fn short_keys_are_skipped() {
    let mut short = block_log_prefix(5);
    short.extend_from_slice(&[0, 0]);
    let rows = vec![
        (short, vec![9]),
        (log_key(5, 0, &contract_key(&[]), 0, 1), vec![7]),
    ];
    let entries = read_block_log(&rows, 5);
    assert_eq!(entries.len(), 1);
    assert_eq!(entries[0].value, vec![7]);
    assert_eq!(entries[0].change_type, 1);
}

#[test]
fn trie_keys_are_classified() {
    let (kind, id, bits) = parse_trie_key(&contract_key(&[true, false, true]));
    assert_eq!(kind, TrieKind::Contract);
    assert_eq!(id, b"0xcontract".to_vec());
    assert_eq!(bits.unwrap().to_bits(), vec![true, false, true]);

    let mut class = b"0xclass".to_vec();
    class.extend_from_slice(&[0x01, 0x80]);
    let (kind, id, bits) = parse_trie_key(&class);
    assert_eq!(kind, TrieKind::Class);
    assert_eq!(id, b"0xclass".to_vec());
    assert_eq!(bits.unwrap().to_bits(), vec![true]);

    let mut storage = vec![0xabu8; 32];
    storage.extend_from_slice(&[0x02, 0x40]);
    let (kind, id, bits) = parse_trie_key(&storage);
    assert_eq!(kind, TrieKind::Storage);
    assert_eq!(id, vec![0xab; 32]);
    assert_eq!(bits.unwrap().to_bits(), vec![false, true]);

    let (kind, id, bits) = parse_trie_key(&[1, 2, 3]);
    assert_eq!(kind, TrieKind::Contract);
    assert_eq!(id, vec![1, 2, 3]);
    assert!(bits.is_none());
}
