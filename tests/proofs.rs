use bonsai_db_inspect::felt::Felt;
use bonsai_db_inspect::inclusion::{verify_proof, ProofNode, ProofWalk, WalkStatus};
use bonsai_db_inspect::node::{BinaryNode, EdgeNode, Node, NodeHandle, Path};
use bonsai_db_inspect::path::{path_to_felt, PathBits};
use bonsai_db_inspect::trie::TrieKind;

fn path_of(bits: &[bool]) -> PathBits {
    PathBits::from_bits(&bits.to_vec())
}

fn felt(hex: &str) -> Felt {
    Felt::from_hex(hex).unwrap()
}

/// A two-level trie for key `10`: a binary root whose right child is an
/// edge of one bit `0` over a leaf.
fn sample(kind: TrieKind) -> (Felt, PathBits, Vec<ProofNode>) {
    let leaf = felt("0x1234");
    let edge = ProofNode::Edge { child: leaf, path: path_of(&[false]) };
    let right = edge.hash(kind);
    let left = felt("0x99");
    let binary = ProofNode::Binary { left, right };
    let root = binary.hash(kind);
    (root, path_of(&[true, false]), vec![binary, edge])
}

#[test]
fn pedersen_known_value() {
    let a = felt("0x03d937c035c878245caf64531a5756109c53068da139362728feb561405371cb");
    let b = felt("0x0208a0a10250e382e1e4bbe2880906c2791bf6275695e02fbbc6aeff9cd8b31a");
    assert_eq!(
        Felt::pedersen(&a, &b),
        felt("0x030e480bed5fe53fa909cc0f8c4d99b8f9f2c016be4c41e13a4848797979c662")
    );
}

#[test]
fn poseidon_known_value() {
    let a = felt("0x03d937c035c878245caf64531a5756109c53068da139362728feb561405371cb");
    let b = felt("0x0208a0a10250e382e1e4bbe2880906c2791bf6275695e02fbbc6aeff9cd8b31a");
    assert_eq!(
        Felt::poseidon(&a, &b),
        felt("0x67c6a2e2d0c7867f97444ae17956dbc89d40ad22255bb06f5f6c515958926ed")
    );
}

#[test]
fn field_addition_wraps_at_the_prime() {
    let p_minus_one = felt("0x800000000000011000000000000000000000000000000000000000000000000");
    assert_eq!(p_minus_one.add(&Felt::from_u64(1)), Felt::zero());
    assert_eq!(Felt::from_u64(2).add(&Felt::from_u64(3)), Felt::from_u64(5));
}

#[test]
fn edge_hash_adds_the_length() {
    let child = felt("0xabc");
    let path = path_of(&[true, true]);
    let edge = ProofNode::Edge { child, path: path_of(&[true, true]) };
    let expected = Felt::pedersen(&child, &path_to_felt(&path)).add(&Felt::from_u64(2));
    assert_eq!(edge.hash(TrieKind::Contract), expected);
}

#[test]
fn binary_hash_follows_the_kind() {
    let a = felt("0x1");
    let b = felt("0x2");
    let node = ProofNode::Binary { left: a, right: b };
    assert_eq!(node.hash(TrieKind::Contract), Felt::pedersen(&a, &b));
    assert_eq!(node.hash(TrieKind::Storage), Felt::pedersen(&a, &b));
    assert_eq!(node.hash(TrieKind::Class), Felt::poseidon(&a, &b));
}

#[test]
fn valid_proof_verifies() {
    for kind in [TrieKind::Contract, TrieKind::Storage, TrieKind::Class] {
        let (root, key, proof) = sample(kind);
        assert!(verify_proof(root, &key, &proof, kind));
    }
}

#[test]
fn swapping_the_hash_family_fails() {
    let (root, key, proof) = sample(TrieKind::Contract);
    assert!(verify_proof(root, &key, &proof, TrieKind::Contract));
    assert!(!verify_proof(root, &key, &proof, TrieKind::Class));
    let (root, key, proof) = sample(TrieKind::Class);
    assert!(verify_proof(root, &key, &proof, TrieKind::Class));
    assert!(!verify_proof(root, &key, &proof, TrieKind::Contract));
}

#[test]
fn flipping_a_bit_fails() {
    let kind = TrieKind::Contract;
    let (root, key, proof) = sample(kind);
    let flipped_root = root.add(&Felt::from_u64(1));
    assert!(!verify_proof(flipped_root, &key, &proof, kind));

    let (_, _, mut tampered) = sample(kind);
    if let ProofNode::Binary { left, .. } = &mut tampered[0] {
        *left = felt("0x98");
    }
    assert!(!verify_proof(root, &key, &tampered, kind));

    let (_, _, mut tampered) = sample(kind);
    if let ProofNode::Edge { child, .. } = &mut tampered[1] {
        *child = felt("0x1235");
    }
    assert!(!verify_proof(root, &key, &tampered, kind));
}

#[test]
fn truncated_proof_is_a_subtree_proof() {
    let kind = TrieKind::Contract;
    let (root, key, mut proof) = sample(kind);
    proof.pop();
    assert!(verify_proof(root, &key, &proof, kind));
    assert!(verify_proof(root, &key, &Vec::new(), kind));
}

#[test]
fn spurious_binary_overruns_the_key() {
    let kind = TrieKind::Contract;
    let (root, key, mut proof) = sample(kind);
    let leaf = felt("0x1234");
    proof.push(ProofNode::Binary { left: leaf, right: leaf });
    assert!(!verify_proof(root, &key, &proof, kind));
}

#[test]
fn edge_off_the_key_fails() {
    let kind = TrieKind::Contract;
    let (root, _, proof) = sample(kind);
    assert!(!verify_proof(root, &path_of(&[true, true]), &proof, kind));
}

#[test]
fn edge_length_is_bound_into_the_hash() {
    let child = felt("0x77");
    let short = ProofNode::Edge { child, path: path_of(&[true]) };
    let long = ProofNode::Edge { child, path: path_of(&[false, true]) };
    assert_eq!(path_to_felt(&path_of(&[true])), path_to_felt(&path_of(&[false, true])));
    assert_ne!(short.hash(TrieKind::Contract), long.hash(TrieKind::Contract));
    assert_ne!(short.hash(TrieKind::Class), long.hash(TrieKind::Class));
}

fn binary_node(left: Felt, right: Felt) -> Node {
    Node::Binary(BinaryNode {
        hash: None,
        height: 0,
        left: NodeHandle::Hash(left),
        right: NodeHandle::Hash(right),
    })
}

#[test]
fn walk_builds_the_proof() {
    let kind = TrieKind::Contract;
    let (root, key, expected) = sample(kind);
    let mut walk = ProofWalk::new(path_of(&[true, false]));
    assert_eq!(walk.step(Some(binary_node(felt("0x99"), expected_right(&expected)))), WalkStatus::Continue);
    assert_eq!(walk.walked().to_bits(), vec![true]);
    let edge = Node::Edge(EdgeNode {
        hash: None,
        height: 1,
        path: Path(path_of(&[false])),
        child: NodeHandle::Hash(felt("0x1234")),
    });
    assert_eq!(walk.step(Some(edge)), WalkStatus::Finished);
    let proof = walk.into_proof();
    assert_eq!(proof.len(), 2);
    assert!(verify_proof(root, &key, &proof, kind));
}

fn expected_right(proof: &[ProofNode]) -> Felt {
    match &proof[0] {
        ProofNode::Binary { right, .. } => *right,
        _ => panic!("root is binary"),
    }
}

#[test]
fn walk_fails_on_missing_or_in_memory_nodes() {
    let mut walk = ProofWalk::new(path_of(&[true]));
    assert_eq!(walk.step(None), WalkStatus::Failed);
    let mut walk = ProofWalk::new(path_of(&[true]));
    let node = Node::Binary(BinaryNode {
        hash: None,
        height: 0,
        left: NodeHandle::InMemory(1),
        right: NodeHandle::Hash(felt("0x1")),
    });
    assert_eq!(walk.step(Some(node)), WalkStatus::Failed);
    assert!(walk.into_proof().is_empty());
}

#[test]
fn walk_ends_when_key_is_covered() {
    let mut walk = ProofWalk::new(PathBits::default());
    assert_eq!(walk.step(Some(binary_node(felt("0x1"), felt("0x2")))), WalkStatus::Finished);
    assert_eq!(walk.into_proof().len(), 1);
}

#[test]
fn walk_fails_on_an_empty_edge_short_of_the_key() {
    let mut walk = ProofWalk::new(path_of(&[true, false]));
    let edge = Node::Edge(EdgeNode {
        hash: None,
        height: 0,
        path: Path(PathBits::default()),
        child: NodeHandle::Hash(felt("0x1")),
    });
    assert_eq!(walk.step(Some(edge)), WalkStatus::Failed);
    assert!(walk.walked().is_empty());
    assert!(walk.into_proof().is_empty());
}

#[test]
fn empty_edge_at_the_key_end_finishes() {
    let mut walk = ProofWalk::new(PathBits::default());
    let edge = Node::Edge(EdgeNode {
        hash: None,
        height: 0,
        path: Path(PathBits::default()),
        child: NodeHandle::Hash(felt("0x1")),
    });
    assert_eq!(walk.step(Some(edge)), WalkStatus::Finished);
    assert_eq!(walk.into_proof().len(), 1);
}
