use vstd::prelude::*;
use vstd::string::StringExecFns;

use crate::diff::{opt_path_view, TrieLogEntry};
use crate::felt::{be_value, felt_bytes_of, felt_text, Felt};
use crate::hex::{bytes_to_hex, decode_felt_scale, format_felt_short, hex_of_bytes, shortened};
use crate::inclusion::{proof_paths_ok, proof_verifies, verify_proof, ProofNode};
use crate::node::{node_paths_ok, Node, NodeHandle, MAX_KEY_BITS};
use crate::path::{path_encoding, PathBits};
use crate::trie::{string_views, TrieKind};

verus! {

/// A node as the service shows it.
#[derive(Debug)]
pub struct NodeView {
    pub kind: String,
    pub height: u64,
    pub hash: Option<String>,
    pub left: Option<String>,
    pub right: Option<String>,
    pub child: Option<String>,
    pub path_len: Option<usize>,
    pub path_hex: Option<String>,
}

#[derive(Debug)]
pub struct RootResponse {
    pub path_hex: String,
    pub node: Option<NodeView>,
}

#[derive(Debug)]
pub struct NodeResponse {
    pub path_hex: String,
    pub node: Option<NodeView>,
}

#[derive(Debug)]
pub struct LeafResponse {
    pub key: String,
    pub value: Option<String>,
}

#[derive(Debug)]
pub struct DiffEntry {
    pub block: u64,
    pub key_type: String,
    pub change_type: String,
    pub key_len: Option<usize>,
    pub value: String,
}

#[derive(Debug)]
pub struct DiffResponse {
    pub entries: Vec<DiffEntry>,
}

#[derive(Debug)]
pub struct ProofNodeJson {
    pub kind: String,
    pub left: Option<String>,
    pub right: Option<String>,
    pub child: Option<String>,
    pub path_len: Option<usize>,
}

#[derive(Debug)]
pub struct ProofResponse {
    pub verified: bool,
    pub nodes: Vec<ProofNodeJson>,
}

#[derive(Debug)]
pub struct CfsResponse {
    pub total: usize,
    pub names: Vec<String>,
}

pub open spec fn opt_text(o: Option<String>) -> Option<Seq<char>> {
    match o {
        Some(s) => Some(s@),
        None => None,
    }
}

pub open spec fn opt_felt_text(o: Option<Felt>) -> Option<Seq<char>> {
    match o {
        Some(f) => Some(felt_text(f@)),
        None => None,
    }
}

pub open spec fn handle_text(h: NodeHandle) -> Option<Seq<char>> {
    match h {
        NodeHandle::Hash(f) => Some(felt_text(f@)),
        NodeHandle::InMemory(_) => None,
    }
}

/// The hex text of a path's encoding.
pub open spec fn path_hex_text(p: Seq<bool>) -> Seq<char> {
    seq!['0', 'x'] + hex_of_bytes(path_encoding(p))
}

/// Whether `v` shows `n`: its kind, height and hash, the hashes of its
/// children (none for a child that is not persisted), and for an edge the
/// length and encoding of its segment.
pub open spec fn shows_node(v: NodeView, n: Node) -> bool {
    match n {
        Node::Binary(bin) => {
            &&& v.kind@ == "binary"@
            &&& v.height == bin.height
            &&& opt_text(v.hash) == opt_felt_text(bin.hash)
            &&& opt_text(v.left) == handle_text(bin.left)
            &&& opt_text(v.right) == handle_text(bin.right)
            &&& v.child is None
            &&& v.path_len is None
            &&& v.path_hex is None
        },
        Node::Edge(edge) => {
            &&& v.kind@ == "edge"@
            &&& v.height == edge.height
            &&& opt_text(v.hash) == opt_felt_text(edge.hash)
            &&& v.left is None
            &&& v.right is None
            &&& opt_text(v.child) == handle_text(edge.child)
            &&& v.path_len == Some(edge.path@.len() as usize)
            &&& opt_text(v.path_hex) == Some(path_hex_text(edge.path@))
        },
    }
}

fn opt_felt_hex(o: &Option<Felt>) -> (r: Option<String>)
    ensures
        opt_text(r) == opt_felt_text(*o),
{
    match o {
        Some(f) => Some(f.to_hex_string()),
        None => None,
    }
}

fn handle_hex(h: NodeHandle) -> (r: Option<String>)
    ensures
        opt_text(r) == handle_text(h),
{
    match h.as_hash() {
        Some(f) => Some(f.to_hex_string()),
        None => None,
    }
}

/// The view of a node.
pub fn node_to_view(node: Node) -> (r: NodeView)
    requires
        node_paths_ok(node),
    ensures
        shows_node(r, node),
{
    match node {
        Node::Binary(binary) => NodeView {
            kind: <String as StringExecFns>::from_str("binary"),
            height: binary.height,
            hash: opt_felt_hex(&binary.hash),
            left: handle_hex(binary.left),
            right: handle_hex(binary.right),
            child: None,
            path_len: None,
            path_hex: None,
        },
        Node::Edge(edge) => NodeView {
            kind: <String as StringExecFns>::from_str("edge"),
            height: edge.height,
            hash: opt_felt_hex(&edge.hash),
            left: None,
            right: None,
            child: handle_hex(edge.child),
            path_len: Some(edge.path.len()),
            path_hex: Some(bytes_to_hex(edge.path.0.to_bytes().as_slice())),
        },
    }
}

/// The response for a trie's root: the empty path's hex and the root's view.
pub fn root_response(node: Option<Node>) -> (r: RootResponse)
    requires
        node matches Some(n) ==> node_paths_ok(n),
    ensures
        r.path_hex@ == path_hex_text(Seq::empty()),
        r.node is Some <==> node is Some,
        r.node matches Some(v) ==> shows_node(v, node.unwrap()),
{
    let root_path = PathBits::default();
    let path_hex = bytes_to_hex(root_path.to_bytes().as_slice());
    let node = match node {
        Some(n) => Some(node_to_view(n)),
        None => None,
    };
    RootResponse { path_hex, node }
}

/// The response for the node at a requested path.
pub fn node_response(path_hex: &str, node: Option<Node>) -> (r: NodeResponse)
    requires
        node matches Some(n) ==> node_paths_ok(n),
    ensures
        r.path_hex@ == path_hex@,
        r.node is Some <==> node is Some,
        r.node matches Some(v) ==> shows_node(v, node.unwrap()),
{
    let node = match node {
        Some(n) => Some(node_to_view(n)),
        None => None,
    };
    NodeResponse { path_hex: <String as StringExecFns>::from_str(path_hex), node }
}

/// The response for a leaf lookup: the key as asked and the value's hex.
pub fn leaf_response(key_hex: &str, value: Option<Felt>) -> (r: LeafResponse)
    ensures
        r.key@ == key_hex@,
        opt_text(r.value) == opt_felt_text(value),
{
    LeafResponse { key: <String as StringExecFns>::from_str(key_hex), value: opt_felt_hex(&value) }
}

/// The name of a log key's type byte.
pub open spec fn key_type_name(t: u8) -> Seq<char> {
    if t == 0 {
        "trie"@
    } else if t == 1 {
        "flat"@
    } else {
        "unknown"@
    }
}

/// The name of a log key's change-type byte.
pub open spec fn change_type_name(t: u8) -> Seq<char> {
    if t == 0 {
        "new"@
    } else if t == 1 {
        "old"@
    } else {
        "unknown"@
    }
}

/// The name of a log key's type byte.
pub fn key_type_label(t: u8) -> (r: &'static str)
    ensures
        r@ == key_type_name(t),
{
    match t {
        0 => "trie",
        1 => "flat",
        _ => "unknown",
    }
}

/// The name of a log key's change-type byte.
pub fn change_type_label(t: u8) -> (r: &'static str)
    ensures
        r@ == change_type_name(t),
{
    match t {
        0 => "new",
        1 => "old",
        _ => "unknown",
    }
}

/// How a logged value shows: the short text of the felt at its front, or
/// the hex of its raw bytes when it holds no felt.
pub open spec fn value_text(v: Seq<u8>) -> Seq<char> {
    if v.len() >= 32 {
        shortened(felt_text(felt_bytes_of(be_value(v.subrange(0, 32)))))
    } else {
        seq!['0', 'x'] + hex_of_bytes(v)
    }
}

pub open spec fn opt_len(p: Option<Seq<bool>>) -> Option<usize> {
    match p {
        Some(bits) => Some(bits.len() as usize),
        None => None,
    }
}

/// The view of one log entry.
pub fn diff_entry_view(entry: &TrieLogEntry) -> (r: DiffEntry)
    ensures
        r.block == entry.block,
        r.key_type@ == key_type_name(entry.key_type),
        r.change_type@ == change_type_name(entry.change_type),
        r.key_len == opt_len(opt_path_view(entry.key_bits)),
        r.value@ == value_text(entry.value@),
{
    let value = match decode_felt_scale(entry.value.as_slice()) {
        Some(f) => format_felt_short(&f),
        None => bytes_to_hex(entry.value.as_slice()),
    };
    let key_len = match &entry.key_bits {
        Some(k) => Some(k.len()),
        None => None,
    };
    DiffEntry {
        block: entry.block,
        key_type: <String as StringExecFns>::from_str(key_type_label(entry.key_type)),
        change_type: <String as StringExecFns>::from_str(change_type_label(entry.change_type)),
        key_len,
        value,
    }
}

/// The views of a block's log entries, in order.
pub fn diff_response(entries: &Vec<TrieLogEntry>) -> (r: DiffResponse)
    ensures
        r.entries@.len() == entries@.len(),
        forall|k: int|
            0 <= k < entries@.len() ==> {
                let v = #[trigger] r.entries@[k];
                let e = entries@[k];
                &&& v.block == e.block
                &&& v.key_type@ == key_type_name(e.key_type)
                &&& v.change_type@ == change_type_name(e.change_type)
                &&& v.key_len == opt_len(opt_path_view(e.key_bits))
                &&& v.value@ == value_text(e.value@)
            },
{
    let mut out: Vec<DiffEntry> = Vec::new();
    let mut i: usize = 0;
    while i < entries.len()
        invariant
            i <= entries@.len(),
            out@.len() == i,
            forall|k: int|
                0 <= k < i ==> {
                    let v = #[trigger] out@[k];
                    let e = entries@[k];
                    &&& v.block == e.block
                    &&& v.key_type@ == key_type_name(e.key_type)
                    &&& v.change_type@ == change_type_name(e.change_type)
                    &&& v.key_len == opt_len(opt_path_view(e.key_bits))
                    &&& v.value@ == value_text(e.value@)
                },
        decreases entries@.len() - i,
    {
        out.push(diff_entry_view(&entries[i]));
        i = i + 1;
    }
    DiffResponse { entries: out }
}

/// Whether `j` shows proof node `n`.
pub open spec fn shows_proof_node(j: ProofNodeJson, n: ProofNode) -> bool {
    match n {
        ProofNode::Binary { left, right } => {
            &&& j.kind@ == "binary"@
            &&& opt_text(j.left) == Some(felt_text(left@))
            &&& opt_text(j.right) == Some(felt_text(right@))
            &&& j.child is None
            &&& j.path_len is None
        },
        ProofNode::Edge { child, path } => {
            &&& j.kind@ == "edge"@
            &&& j.left is None
            &&& j.right is None
            &&& opt_text(j.child) == Some(felt_text(child@))
            &&& j.path_len == Some(path@.len() as usize)
        },
    }
}

fn proof_node_json(n: &ProofNode) -> (r: ProofNodeJson)
    ensures
        shows_proof_node(r, *n),
{
    match n {
        ProofNode::Binary { left, right } => ProofNodeJson {
            kind: <String as StringExecFns>::from_str("binary"),
            left: Some(left.to_hex_string()),
            right: Some(right.to_hex_string()),
            child: None,
            path_len: None,
        },
        ProofNode::Edge { child, path } => ProofNodeJson {
            kind: <String as StringExecFns>::from_str("edge"),
            left: None,
            right: None,
            child: Some(child.to_hex_string()),
            path_len: Some(path.len()),
        },
    }
}

/// The response for a proof: whether it verifies against the root
/// commitment, and a view of each of its nodes.
pub fn proof_response(root: Felt, key: &PathBits, proof: &Vec<ProofNode>, kind: TrieKind) -> (r:
    ProofResponse)
    requires
        proof_paths_ok(proof@),
        key@.len() <= MAX_KEY_BITS,
    ensures
        r.verified == proof_verifies(root@, key@, proof@, kind),
        r.nodes@.len() == proof@.len(),
        forall|k: int| 0 <= k < proof@.len() ==> shows_proof_node(#[trigger] r.nodes@[k], proof@[k]),
{
    let verified = verify_proof(root, key, proof, kind);
    let mut nodes: Vec<ProofNodeJson> = Vec::new();
    let mut i: usize = 0;
    while i < proof.len()
        invariant
            i <= proof@.len(),
            nodes@.len() == i,
            forall|k: int| 0 <= k < i ==> shows_proof_node(#[trigger] nodes@[k], proof@[k]),
        decreases proof@.len() - i,
    {
        nodes.push(proof_node_json(&proof[i]));
        i = i + 1;
    }
    ProofResponse { verified, nodes }
}

/// The response when no proof could be built.
pub fn empty_proof_response() -> (r: ProofResponse)
    ensures
        !r.verified,
        r.nodes@.len() == 0,
{
    ProofResponse { verified: false, nodes: Vec::new() }
}

/// The commitment stored with a node, which its proof must open.
pub fn root_commitment(node: &Node) -> (r: Option<Felt>)
    ensures
        r == (match node {
            Node::Binary(bin) => bin.hash,
            Node::Edge(edge) => edge.hash,
        }),
{
    match node {
        Node::Binary(bin) => bin.hash,
        Node::Edge(edge) => edge.hash,
    }
}

/// How a child link shows in a tree: the short text of its hash, or
/// `in-memory` for a child that is not persisted.
pub fn format_node_hash(handle: NodeHandle) -> (r: String)
    ensures
        r@ == (match handle {
            NodeHandle::Hash(f) => shortened(felt_text(f@)),
            NodeHandle::InMemory(_) => "in-memory"@,
        }),
{
    match handle.as_hash() {
        Some(f) => format_felt_short(&f),
        None => <String as StringExecFns>::from_str("in-memory"),
    }
}

/// The store's columns as listed.
pub fn list_cfs(names: &Vec<String>) -> (r: CfsResponse)
    ensures
        r.total == names@.len(),
        string_views(r.names@) == string_views(names@),
{
    let mut out: Vec<String> = Vec::new();
    let mut i: usize = 0;
    while i < names.len()
        invariant
            i <= names@.len(),
            out@.len() == i,
            forall|k: int| 0 <= k < i ==> (#[trigger] out@[k])@ == names@[k]@,
        decreases names@.len() - i,
    {
        let name = names[i].clone();
        out.push(name);
        i = i + 1;
    }
    assert(string_views(out@) =~= string_views(names@));
    CfsResponse { total: names.len(), names: out }
}

} // verus!
