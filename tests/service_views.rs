use bonsai_db_inspect::diff::read_block_log;
use bonsai_db_inspect::felt::Felt;
use bonsai_db_inspect::hex::{bytes_to_hex, decode_felt_scale, format_felt_short, hex_to_bytes, parse_felt_hex};
use bonsai_db_inspect::inclusion::ProofNode;
use bonsai_db_inspect::node::{BinaryNode, EdgeNode, Node, NodeHandle, Path};
use bonsai_db_inspect::path::PathBits;
use bonsai_db_inspect::trie::{build_spec, missing_required_columns, required_columns, TrieKind};
use bonsai_db_inspect::views::{
    change_type_label, diff_response, format_node_hash, key_type_label, leaf_response, list_cfs,
    node_to_view, proof_response, root_commitment, root_response,
};

#[test]
fn bytes_to_hex_is_lowercase_and_prefixed() {
    assert_eq!(bytes_to_hex(&[]), "0x");
    assert_eq!(bytes_to_hex(&[0x01, 0xab, 0xff]), "0x01abff");
}

#[test]
fn hex_to_bytes_parses_pairs() {
    assert_eq!(hex_to_bytes("0x01abFF"), Some(vec![0x01, 0xab, 0xff]));
    assert_eq!(hex_to_bytes("0180"), Some(vec![0x01, 0x80]));
    assert_eq!(hex_to_bytes("0x"), Some(vec![]));
    assert_eq!(hex_to_bytes("0x123"), None);
    assert_eq!(hex_to_bytes("0xzz"), None);
    assert_eq!(hex_to_bytes("+f"), None);
}

#[test]
fn hex_input_is_trimmed() {
    assert_eq!(hex_to_bytes(" ab "), Some(vec![0xab]));
    assert_eq!(hex_to_bytes("\t0x01ab\n"), Some(vec![0x01, 0xab]));
    assert_eq!(hex_to_bytes(" 0 x1 "), None);
    assert_eq!(parse_felt_hex("  0x1a\n"), Ok(Felt::from_u64(26)));
    assert_eq!(parse_felt_hex("   "), Ok(Felt::zero()));
    let s = build_spec(TrieKind::Storage, Some(" 0x1 ".to_string())).unwrap();
    assert_eq!(s.identifier.len(), 32);
    assert_eq!(s.identifier[31], 1);
}

#[test]
fn parse_felt_hex_forms() {
    assert_eq!(parse_felt_hex(""), Ok(Felt::zero()));
    assert_eq!(parse_felt_hex("0x"), Ok(Felt::zero()));
    assert_eq!(parse_felt_hex("0x1a"), Ok(Felt::from_u64(26)));
    assert_eq!(parse_felt_hex("1A"), Ok(Felt::from_u64(26)));
    assert!(parse_felt_hex("0xzz").is_err());
    assert!(parse_felt_hex(&"1".repeat(65)).is_err());
    let p = "0x800000000000011000000000000000000000000000000000000000000000001";
    assert_eq!(parse_felt_hex(p), Ok(Felt::zero()));
}

#[test]
fn felt_hex_text() {
    assert_eq!(Felt::zero().to_hex_string(), "0x0");
    assert_eq!(Felt::from_u64(26).to_hex_string(), "0x1a");
    assert_eq!(
        Felt::from_u64(0x1234_5678_9abc_def0).to_hex_string(),
        "0x123456789abcdef0"
    );
}

#[test]
fn short_felt_text() {
    assert_eq!(format_felt_short(&Felt::from_u64(26)), "0x1a");
    assert_eq!(format_felt_short(&Felt::from_u64(0x1234_5678_9abc_def0)), "0x12345678\u{2026}def0");
}

#[test]
fn flat_values_decode_from_32_bytes() {
    let mut bytes = vec![0u8; 31];
    bytes.push(5);
    assert_eq!(decode_felt_scale(&bytes), Some(Felt::from_u64(5)));
    assert_eq!(decode_felt_scale(&bytes[..31]), None);
}

#[test]
fn specs_of_each_kind() {
    let c = build_spec(TrieKind::Contract, None).unwrap();
    assert_eq!(c.identifier, b"0xcontract".to_vec());
    assert_eq!(c.trie_cf, "bonsai_contract_trie");
    assert_eq!(c.flat_cf, "bonsai_contract_flat");
    assert_eq!(c.log_cf, "bonsai_contract_log");
    let k = build_spec(TrieKind::Class, Some("0x5".to_string())).unwrap();
    assert_eq!(k.identifier, b"0xclass".to_vec());
    assert_eq!(k.trie_cf, "bonsai_class_trie");
    let s = build_spec(TrieKind::Storage, Some("0x1".to_string())).unwrap();
    let mut id = vec![0u8; 31];
    id.push(1);
    assert_eq!(s.identifier, id);
    assert_eq!(s.log_cf, "bonsai_contract_storage_log");
    assert!(build_spec(TrieKind::Storage, None).is_err());
    assert!(build_spec(TrieKind::Storage, Some("0xnope".to_string())).is_err());
}

#[test]
fn storage_key_is_identifier_then_path() {
    let spec = build_spec(TrieKind::Class, None).unwrap();
    let key = spec.storage_key(&PathBits::from_bits(&vec![true]));
    let mut expected = b"0xclass".to_vec();
    expected.extend_from_slice(&[0x01, 0x80]);
    assert_eq!(key, expected);
}

#[test]
fn kind_names() {
    assert_eq!(TrieKind::Contract.label(), "Contract");
    assert_eq!(TrieKind::Storage.label(), "Storage");
    assert_eq!(TrieKind::Class.label(), "Class");
    assert_eq!(TrieKind::Class.wire_name(), "class");
    assert_eq!(TrieKind::Contract.identifier(), b"0xcontract".to_vec());
    assert_eq!(TrieKind::Class.identifier(), b"0xclass".to_vec());
    assert!(TrieKind::Storage.identifier().is_empty());
}

#[test]
fn missing_columns_are_listed() {
    let all = required_columns();
    assert_eq!(all.len(), 9);
    assert!(missing_required_columns(&all).is_empty());
    let some: Vec<String> = vec!["default".to_string(), "bonsai_class_log".to_string()];
    let missing = missing_required_columns(&some);
    assert_eq!(missing.len(), 8);
    assert_eq!(missing[0], "bonsai_contract_flat");
    assert!(!missing.contains(&"bonsai_class_log".to_string()));
}

#[test]
fn node_views() {
    let view = node_to_view(Node::Binary(BinaryNode {
        hash: Some(Felt::from_u64(10)),
        height: 2,
        left: NodeHandle::Hash(Felt::from_u64(11)),
        right: NodeHandle::InMemory(3),
    }));
    assert_eq!(view.kind, "binary");
    assert_eq!(view.height, 2);
    assert_eq!(view.hash.as_deref(), Some("0xa"));
    assert_eq!(view.left.as_deref(), Some("0xb"));
    assert_eq!(view.right, None);
    let view = node_to_view(Node::Edge(EdgeNode {
        hash: None,
        height: 4,
        path: Path(PathBits::from_bits(&vec![true, false, true])),
        child: NodeHandle::Hash(Felt::from_u64(12)),
    }));
    assert_eq!(view.kind, "edge");
    assert_eq!(view.child.as_deref(), Some("0xc"));
    assert_eq!(view.path_len, Some(3));
    assert_eq!(view.path_hex.as_deref(), Some("0x03a0"));
    let root = root_response(None);
    assert_eq!(root.path_hex, "0x00");
    assert!(root.node.is_none());
}

#[test]
fn leaf_and_hash_views() {
    let leaf = leaf_response("0x5", Some(Felt::from_u64(255)));
    assert_eq!(leaf.key, "0x5");
    assert_eq!(leaf.value.as_deref(), Some("0xff"));
    assert_eq!(format_node_hash(NodeHandle::InMemory(1)), "in-memory");
    assert_eq!(format_node_hash(NodeHandle::Hash(Felt::from_u64(1))), "0x1");
    let node = Node::Binary(BinaryNode {
        hash: Some(Felt::from_u64(3)),
        height: 0,
        left: NodeHandle::InMemory(1),
        right: NodeHandle::InMemory(2),
    });
    assert_eq!(root_commitment(&node), Some(Felt::from_u64(3)));
}

#[test]
fn diff_views() {
    assert_eq!(key_type_label(0), "trie");
    assert_eq!(key_type_label(1), "flat");
    assert_eq!(key_type_label(7), "unknown");
    assert_eq!(change_type_label(0), "new");
    assert_eq!(change_type_label(1), "old");
    assert_eq!(change_type_label(2), "unknown");
    let mut key = 3u64.to_be_bytes().to_vec();
    key.push(0);
    key.extend_from_slice(b"0xclass");
    key.extend_from_slice(&[0x01, 0x80, 1, 0]);
    let mut felt_value = vec![0u8; 31];
    felt_value.push(0x2a);
    let rows = vec![(key.clone(), felt_value), (key, vec![0xde, 0xad])];
    let response = diff_response(&read_block_log(&rows, 3));
    assert_eq!(response.entries.len(), 2);
    assert_eq!(response.entries[0].key_type, "flat");
    assert_eq!(response.entries[0].change_type, "new");
    assert_eq!(response.entries[0].key_len, Some(1));
    assert_eq!(response.entries[0].value, "0x2a");
    assert_eq!(response.entries[1].value, "0xdead");
}

#[test]
fn proof_and_column_views() {
    let leaf = Felt::from_u64(0x44);
    let proof = vec![ProofNode::Edge { child: leaf, path: PathBits::from_bits(&vec![true]) }];
    let root = proof[0].hash(TrieKind::Contract);
    let response = proof_response(root, &PathBits::from_bits(&vec![true]), &proof, TrieKind::Contract);
    assert!(response.verified);
    assert_eq!(response.nodes.len(), 1);
    assert_eq!(response.nodes[0].kind, "edge");
    assert_eq!(response.nodes[0].child.as_deref(), Some("0x44"));
    assert_eq!(response.nodes[0].path_len, Some(1));
    let cfs = list_cfs(&vec!["a".to_string(), "b".to_string()]);
    assert_eq!(cfs.total, 2);
    assert_eq!(cfs.names, vec!["a".to_string(), "b".to_string()]);
}
