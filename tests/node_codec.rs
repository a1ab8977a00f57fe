use bonsai_db_inspect::felt::Felt;
use bonsai_db_inspect::node::{BinaryNode, EdgeNode, Node, NodeHandle, Path};
use bonsai_db_inspect::path::PathBits;

fn binary_sample() -> Node {
    Node::Binary(BinaryNode {
        hash: Some(Felt::from_u64(7)),
        height: 3,
        left: NodeHandle::Hash(Felt::from_u64(0x1234)),
        right: NodeHandle::InMemory(42),
    })
}

fn edge_sample() -> Node {
    Node::Edge(EdgeNode {
        hash: None,
        height: 0x0102_0304_0506_0708,
        path: Path(PathBits::from_bits(&vec![true, false, true])),
        child: NodeHandle::Hash(Felt::from_u64(9)),
    })
}

#[test]
fn binary_node_layout() {
    let bytes = binary_sample().encode();
    assert_eq!(bytes.len(), 1 + 33 + 8 + 33 + 9);
    assert_eq!(bytes[0], 0);
    assert_eq!(bytes[1], 1);
    assert_eq!(bytes[33], 7);
    assert_eq!(&bytes[34..42], &[3, 0, 0, 0, 0, 0, 0, 0]);
    assert_eq!(bytes[42], 0);
    assert_eq!(&bytes[73..75], &[0x12, 0x34]);
    assert_eq!(bytes[75], 1);
    assert_eq!(&bytes[76..84], &[42, 0, 0, 0, 0, 0, 0, 0]);
}

#[test]
fn edge_node_layout() {
    let bytes = edge_sample().encode();
    assert_eq!(bytes[0], 1);
    assert_eq!(bytes[1], 0);
    assert_eq!(&bytes[2..10], &[8, 7, 6, 5, 4, 3, 2, 1]);
    assert_eq!(&bytes[10..12], &[0x03, 0b1010_0000]);
    assert_eq!(bytes[12], 0);
    assert_eq!(bytes.len(), 12 + 33);
}

#[test]
fn nodes_round_trip() {
    for node in [binary_sample(), edge_sample()] {
        let bytes = node.encode();
        assert_eq!(Node::decode(&bytes), Some(node));
    }
}

#[test]
fn trailing_bytes_are_ignored() {
    let mut bytes = edge_sample().encode();
    bytes.extend_from_slice(&[0xaa, 0xbb]);
    assert_eq!(Node::decode(&bytes), Some(edge_sample()));
}

#[test]
fn unknown_tag_is_rejected() {
    let mut bytes = binary_sample().encode();
    bytes[0] = 2;
    assert_eq!(Node::decode(&bytes), None);
    assert_eq!(Node::decode(&[]), None);
}

#[test]
fn truncated_node_is_rejected() {
    let bytes = binary_sample().encode();
    assert_eq!(Node::decode(&bytes[..bytes.len() - 1]), None);
}

#[test]
fn overlong_edge_path_is_rejected() {
    let mut bytes = vec![1u8, 0];
    bytes.extend_from_slice(&[0; 8]);
    bytes.push(252);
    bytes.extend_from_slice(&[0; 32]);
    bytes.push(1);
    bytes.extend_from_slice(&[0; 8]);
    assert_eq!(Node::decode(&bytes), None);
}

#[test]
fn stored_felts_are_reduced() {
    let mut bytes = vec![0u8, 1];
    bytes.extend_from_slice(&[0xff; 32]);
    bytes.extend_from_slice(&[0; 8]);
    bytes.push(1);
    bytes.extend_from_slice(&[0; 8]);
    bytes.push(1);
    bytes.extend_from_slice(&[0; 8]);
    match Node::decode(&bytes) {
        Some(Node::Binary(b)) => {
            assert_eq!(b.hash, Some(Felt::from_bytes_be(&[0xff; 32])));
            assert_ne!(b.hash.unwrap().to_bytes_be(), [0xff; 32]);
        }
        other => panic!("unexpected {:?}", other),
    }
}

#[test]
fn as_hash_of_handles() {
    assert_eq!(NodeHandle::Hash(Felt::from_u64(3)).as_hash(), Some(Felt::from_u64(3)));
    assert_eq!(NodeHandle::InMemory(3).as_hash(), None);
}

#[test]
fn nodes_holding_hash_outputs_encode() {
    let h = Felt::pedersen(&Felt::from_u64(1), &Felt::from_u64(2));
    let node = Node::Binary(BinaryNode {
        hash: Some(h),
        height: 1,
        left: NodeHandle::Hash(h),
        right: NodeHandle::Hash(h),
    });
    assert_eq!(Node::decode(&node.encode()), Some(node));
}

#[test]
fn decoding_a_path_ignores_what_follows() {
    let p = PathBits::from_bits(&vec![true, true, false]);
    let mut bytes = p.to_bytes();
    bytes.extend_from_slice(&[0xff, 0xee]);
    assert_eq!(PathBits::from_encoded(&bytes), p);
}
