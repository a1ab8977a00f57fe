use vstd::prelude::*;
use vstd::slice::slice_subrange;

use crate::felt::{be_value, felt_bytes_of, lemma_felt_len, Felt};
use crate::path::{
    content_len, lemma_path_encoding_round_trip, path_decoding, path_encoding, PathBits,
};

verus! {

/// The longest path that a trie key can have.
pub const MAX_KEY_BITS: usize = 251;

/// A link from a node to a child.
#[derive(Clone, Copy, Debug, PartialEq, Eq)]
pub enum NodeHandle {
    /// A child that is persisted, known by its hash.
    Hash(Felt),
    /// A child that lives in a writer's arena; never followed here.
    InMemory(u64),
}

impl NodeHandle {
    /// The child's hash, when the child is persisted.
    pub fn as_hash(self) -> (r: Option<Felt>)
        ensures
            r == (match self {
                NodeHandle::Hash(f) => Some(f),
                NodeHandle::InMemory(_) => None,
            }),
    {
        match self {
            NodeHandle::Hash(f) => Some(f),
            NodeHandle::InMemory(_) => None,
        }
    }
}

/// The path-compressed segment of an edge node.
#[derive(Debug, PartialEq, Eq)]
pub struct Path(pub PathBits);

impl View for Path {
    type V = Seq<bool>;

    open spec fn view(&self) -> Seq<bool> {
        self.0@
    }
}

impl Path {
    pub fn len(&self) -> (r: usize)
        ensures
            r == self@.len(),
    {
        self.0.len()
    }

    pub fn is_empty(&self) -> (r: bool)
        ensures
            r == (self@.len() == 0),
    {
        self.0.is_empty()
    }

    /// The segment's bits.
    pub fn as_bits(&self) -> (r: &PathBits)
        ensures
            r@ == self@,
    {
        &self.0
    }
}

/// An inner node with two children.
#[derive(Debug, PartialEq, Eq)]
pub struct BinaryNode {
    pub hash: Option<Felt>,
    pub height: u64,
    pub left: NodeHandle,
    pub right: NodeHandle,
}

/// A path-compressed segment followed by one child.
#[derive(Debug, PartialEq, Eq)]
pub struct EdgeNode {
    pub hash: Option<Felt>,
    pub height: u64,
    pub path: Path,
    pub child: NodeHandle,
}

/// A persisted trie node.
#[derive(Debug, PartialEq, Eq)]
pub enum Node {
    Binary(BinaryNode),
    Edge(EdgeNode),
}

// ---------------------------------------------------------------------------
// The byte format, as predicates on a buffer `b` read from position `pos`.

/// The unsigned 64-bit number stored little-endian at `pos`.
pub open spec fn le_u64_at(b: Seq<u8>, pos: int) -> u64 {
    (b[pos] as u64) | ((b[pos + 1] as u64) << 8u64) | ((b[pos + 2] as u64) << 16u64) | ((b[pos
        + 3] as u64) << 24u64) | ((b[pos + 4] as u64) << 32u64) | ((b[pos + 5] as u64) << 40u64)
        | ((b[pos + 6] as u64) << 48u64) | ((b[pos + 7] as u64) << 56u64)
}

/// The felt stored as 32 big-endian bytes at `pos`, reduced modulo the prime.
pub open spec fn felt_at(b: Seq<u8>, pos: int) -> Seq<u8> {
    felt_bytes_of(be_value(b.subrange(pos, pos + 32)))
}

/// An optional felt: a tag byte, `0` for none, `1` followed by the felt.
pub open spec fn opt_felt_ok(b: Seq<u8>, pos: int) -> bool {
    0 <= pos < b.len() && (b[pos] == 0 || (b[pos] == 1 && pos + 33 <= b.len()))
}

pub open spec fn opt_felt_size(b: Seq<u8>, pos: int) -> int {
    if b[pos] == 0 {
        1
    } else {
        33
    }
}

pub open spec fn opt_felt_is(b: Seq<u8>, pos: int, v: Option<Felt>) -> bool {
    if b[pos] == 0 {
        v is None
    } else {
        v is Some && v.unwrap()@ == felt_at(b, pos + 1)
    }
}

/// A child link: tag `0` then a 32-byte hash, or tag `1` then a `u64`.
pub open spec fn handle_ok(b: Seq<u8>, pos: int) -> bool {
    0 <= pos < b.len() && ((b[pos] == 0 && pos + 33 <= b.len()) || (b[pos] == 1 && pos + 9
        <= b.len()))
}

pub open spec fn handle_size(b: Seq<u8>, pos: int) -> int {
    if b[pos] == 0 {
        33
    } else {
        9
    }
}

pub open spec fn handle_is(b: Seq<u8>, pos: int, h: NodeHandle) -> bool {
    if b[pos] == 0 {
        h is Hash && h->Hash_0@ == felt_at(b, pos + 1)
    } else {
        h is InMemory && h->InMemory_0 == le_u64_at(b, pos + 1)
    }
}

/// An edge's path: its encoding, with a length of at most 251 bits.
pub open spec fn path_ok(b: Seq<u8>, pos: int) -> bool {
    0 <= pos < b.len() && b[pos] <= MAX_KEY_BITS && pos + 1 + content_len(b[pos] as nat) <= b.len()
}

pub open spec fn path_size(b: Seq<u8>, pos: int) -> int {
    1 + content_len(b[pos] as nat) as int
}

pub open spec fn path_is(b: Seq<u8>, pos: int, p: Seq<bool>) -> bool {
    p == path_decoding(b.subrange(pos, pos + path_size(b, pos)))
}

/// Whether a buffer starts with a well-formed node (trailing bytes are ignored).
pub open spec fn node_bytes_ok(b: Seq<u8>) -> bool {
    &&& b.len() > 0
    &&& (b[0] == 0 || b[0] == 1)
    &&& opt_felt_ok(b, 1)
    &&& {
        let h = 1 + opt_felt_size(b, 1);
        let after = h + 8;
        &&& after <= b.len()
        &&& if b[0] == 0 {
            handle_ok(b, after) && handle_ok(b, after + handle_size(b, after))
        } else {
            path_ok(b, after) && handle_ok(b, after + path_size(b, after))
        }
    }
}

/// Whether `n` is the node that a well-formed buffer holds.
pub open spec fn node_is(b: Seq<u8>, n: Node) -> bool {
    let h = 1 + opt_felt_size(b, 1);
    let after = h + 8;
    match n {
        Node::Binary(bin) => {
            &&& b[0] == 0
            &&& opt_felt_is(b, 1, bin.hash)
            &&& bin.height == le_u64_at(b, h)
            &&& handle_is(b, after, bin.left)
            &&& handle_is(b, after + handle_size(b, after), bin.right)
        },
        Node::Edge(edge) => {
            &&& b[0] == 1
            &&& opt_felt_is(b, 1, edge.hash)
            &&& edge.height == le_u64_at(b, h)
            &&& path_is(b, after, edge.path@)
            &&& handle_is(b, after + path_size(b, after), edge.child)
        },
    }
}

// ---------------------------------------------------------------------------
// Decoding.

fn read_felt(b: &[u8], pos: usize) -> (r: Felt)
    requires
        pos + 32 <= b@.len() < usize::MAX - 64,
    ensures
        r@ == felt_at(b@, pos as int),
{
    let mut raw = [0u8; 32];
    let mut i: usize = 0;
    while i < 32
        invariant
            pos + 32 <= b@.len() < usize::MAX - 64,
            i <= 32,
            raw@.len() == 32,
            forall|j: int| 0 <= j < i ==> raw@[j] == b@[pos + j],
        decreases 32 - i,
    {
        raw[i] = b[pos + i];
        i = i + 1;
    }
    assert(raw@ =~= b@.subrange(pos as int, pos + 32));
    Felt::from_bytes_be(&raw)
}

fn read_u64_le(b: &[u8], pos: usize) -> (r: u64)
    requires
        pos + 8 <= b@.len(),
    ensures
        r == le_u64_at(b@, pos as int),
{
    (b[pos] as u64) | ((b[pos + 1] as u64) << 8u64) | ((b[pos + 2] as u64) << 16u64) | ((b[pos
        + 3] as u64) << 24u64) | ((b[pos + 4] as u64) << 32u64) | ((b[pos + 5] as u64) << 40u64)
        | ((b[pos + 6] as u64) << 48u64) | ((b[pos + 7] as u64) << 56u64)
}

fn read_opt_felt(b: &[u8], pos: usize) -> (r: Option<(Option<Felt>, usize)>)
    requires
        b@.len() < usize::MAX - 64,
    ensures
        r is Some <==> opt_felt_ok(b@, pos as int),
        r matches Some((v, next)) ==> next == pos + opt_felt_size(b@, pos as int) && opt_felt_is(
            b@,
            pos as int,
            v,
        ),
{
    if pos >= b.len() {
        return None;
    }
    if b[pos] == 0 {
        Some((None, pos + 1))
    } else if b[pos] == 1 && pos + 33 <= b.len() {
        Some((Some(read_felt(b, pos + 1)), pos + 33))
    } else {
        None
    }
}

fn read_handle(b: &[u8], pos: usize) -> (r: Option<(NodeHandle, usize)>)
    requires
        b@.len() < usize::MAX - 64,
    ensures
        r is Some <==> handle_ok(b@, pos as int),
        r matches Some((h, next)) ==> next == pos + handle_size(b@, pos as int) && handle_is(
            b@,
            pos as int,
            h,
        ),
{
    if pos >= b.len() {
        return None;
    }
    if b[pos] == 0 && pos + 33 <= b.len() {
        Some((NodeHandle::Hash(read_felt(b, pos + 1)), pos + 33))
    } else if b[pos] == 1 && pos + 9 <= b.len() {
        Some((NodeHandle::InMemory(read_u64_le(b, pos + 1)), pos + 9))
    } else {
        None
    }
}

fn read_path(b: &[u8], pos: usize) -> (r: Option<(Path, usize)>)
    requires
        b@.len() < usize::MAX - 64,
    ensures
        r is Some <==> path_ok(b@, pos as int),
        r matches Some((p, next)) ==> next == pos + path_size(b@, pos as int) && path_is(
            b@,
            pos as int,
            p@,
        ),
{
    if pos >= b.len() {
        return None;
    }
    let n = b[pos] as usize;
    if n > MAX_KEY_BITS {
        return None;
    }
    let size = 1 + (n + 7) / 8;
    if pos + size > b.len() {
        return None;
    }
    let encoded = slice_subrange(b, pos, pos + size);
    Some((Path(PathBits::from_encoded(encoded)), pos + size))
}

/// Decodes a node from the front of a buffer; `None` when the buffer does
/// not start with a well-formed node.
pub fn decode_node(bytes: &[u8]) -> (r: Option<Node>)
    requires
        bytes@.len() < usize::MAX - 64,
    ensures
        r is Some <==> node_bytes_ok(bytes@),
        r matches Some(n) ==> node_is(bytes@, n),
{
    if bytes.len() == 0 {
        return None;
    }
    let tag = bytes[0];
    if tag != 0 && tag != 1 {
        return None;
    }
    let (hash, h) = match read_opt_felt(bytes, 1) {
        Some(x) => x,
        None => return None,
    };
    if h + 8 > bytes.len() {
        return None;
    }
    let height = read_u64_le(bytes, h);
    let after = h + 8;
    if tag == 0 {
        let (left, next) = match read_handle(bytes, after) {
            Some(x) => x,
            None => return None,
        };
        let (right, _) = match read_handle(bytes, next) {
            Some(x) => x,
            None => return None,
        };
        Some(Node::Binary(BinaryNode { hash, height, left, right }))
    } else {
        let (path, next) = match read_path(bytes, after) {
            Some(x) => x,
            None => return None,
        };
        let (child, _) = match read_handle(bytes, next) {
            Some(x) => x,
            None => return None,
        };
        Some(Node::Edge(EdgeNode { hash, height, path, child }))
    }
}


// ---------------------------------------------------------------------------
// Encoding.

/// The eight little-endian bytes of a `u64`.
pub open spec fn u64_le_bytes(x: u64) -> Seq<u8> {
    seq![
        (x & 0xff) as u8,
        ((x >> 8u64) & 0xff) as u8,
        ((x >> 16u64) & 0xff) as u8,
        ((x >> 24u64) & 0xff) as u8,
        ((x >> 32u64) & 0xff) as u8,
        ((x >> 40u64) & 0xff) as u8,
        ((x >> 48u64) & 0xff) as u8,
        ((x >> 56u64) & 0xff) as u8,
    ]
}

pub open spec fn opt_felt_encoding(v: Option<Felt>) -> Seq<u8> {
    match v {
        None => seq![0u8],
        Some(f) => seq![1u8] + f@,
    }
}

pub open spec fn handle_encoding(h: NodeHandle) -> Seq<u8> {
    match h {
        NodeHandle::Hash(f) => seq![0u8] + f@,
        NodeHandle::InMemory(x) => seq![1u8] + u64_le_bytes(x),
    }
}

/// The stored form of a node.
pub open spec fn node_encoding(n: Node) -> Seq<u8> {
    match n {
        Node::Binary(bin) => seq![0u8] + opt_felt_encoding(bin.hash) + u64_le_bytes(bin.height)
            + handle_encoding(bin.left) + handle_encoding(bin.right),
        Node::Edge(edge) => seq![1u8] + opt_felt_encoding(edge.hash) + u64_le_bytes(edge.height)
            + path_encoding(edge.path@) + handle_encoding(edge.child),
    }
}

/// Whether a node's edge segment, if any, is a key path of at most 251 bits.
pub open spec fn node_paths_ok(n: Node) -> bool {
    n matches Node::Edge(edge) ==> edge.path@.len() <= MAX_KEY_BITS
}

/// A felt held in its canonical form: below the prime.
pub open spec fn felt_canonical(f: Felt) -> bool {
    felt_bytes_of(be_value(f@)) == f@
}

pub open spec fn opt_felt_canonical(v: Option<Felt>) -> bool {
    v matches Some(f) ==> felt_canonical(f)
}

pub open spec fn handle_canonical(h: NodeHandle) -> bool {
    h matches NodeHandle::Hash(f) ==> felt_canonical(f)
}

/// The nodes that the format can hold: felts in canonical form and edge
/// paths of at most 251 bits.
pub open spec fn node_shape_ok(n: Node) -> bool {
    match n {
        Node::Binary(bin) => opt_felt_canonical(bin.hash) && handle_canonical(bin.left)
            && handle_canonical(bin.right),
        Node::Edge(edge) => opt_felt_canonical(edge.hash) && handle_canonical(edge.child)
            && edge.path@.len() <= MAX_KEY_BITS,
    }
}

proof fn lemma_u64_le_round_trip(x: u64)
    ensures
        le_u64_at(u64_le_bytes(x), 0) == x,
{
    let b = u64_le_bytes(x);
    let b0 = b[0];
    let b1 = b[1];
    let b2 = b[2];
    let b3 = b[3];
    let b4 = b[4];
    let b5 = b[5];
    let b6 = b[6];
    let b7 = b[7];
    assert((((x & 0xff) as u8) as u64) | (((((x >> 8u64) & 0xff) as u8) as u64) << 8u64) | (((((x
        >> 16u64) & 0xff) as u8) as u64) << 16u64) | (((((x >> 24u64) & 0xff) as u8) as u64)
        << 24u64) | (((((x >> 32u64) & 0xff) as u8) as u64) << 32u64) | (((((x >> 40u64) & 0xff)
        as u8) as u64) << 40u64) | (((((x >> 48u64) & 0xff) as u8) as u64) << 48u64) | (((((x
        >> 56u64) & 0xff) as u8) as u64) << 56u64) == x) by (bit_vector);
}

proof fn lemma_u64_at(b: Seq<u8>, pos: int, x: u64)
    requires
        0 <= pos,
        pos + 8 <= b.len(),
        b.subrange(pos, pos + 8) == u64_le_bytes(x),
    ensures
        le_u64_at(b, pos) == x,
{
    lemma_u64_le_round_trip(x);
    let s = b.subrange(pos, pos + 8);
    assert(s[0] == b[pos] && s[1] == b[pos + 1] && s[2] == b[pos + 2] && s[3] == b[pos + 3]
        && s[4] == b[pos + 4] && s[5] == b[pos + 5] && s[6] == b[pos + 6] && s[7] == b[pos + 7]);
}

proof fn lemma_felt_at(b: Seq<u8>, pos: int, f: Felt)
    requires
        0 <= pos,
        pos + 32 <= b.len(),
        b.subrange(pos, pos + 32) == f@,
        felt_canonical(f),
    ensures
        felt_at(b, pos) == f@,
{
}

proof fn lemma_handle_round_trip(b: Seq<u8>, pos: int, h: NodeHandle)
    requires
        0 <= pos,
        pos + handle_encoding(h).len() <= b.len(),
        b.subrange(pos, pos + handle_encoding(h).len()) == handle_encoding(h),
        handle_canonical(h),
    ensures
        handle_ok(b, pos),
        handle_size(b, pos) == handle_encoding(h).len(),
        handle_is(b, pos, h),
{
    let e = handle_encoding(h);
    assert(b[pos] == e[0]);
    match h {
        NodeHandle::Hash(f) => {
            lemma_felt_len(f);
            assert(b.subrange(pos + 1, pos + 33) =~= e.subrange(1, 33));
            assert(e.subrange(1, 33) =~= f@);
            lemma_felt_at(b, pos + 1, f);
        },
        NodeHandle::InMemory(x) => {
            assert(b.subrange(pos + 1, pos + 9) =~= e.subrange(1, 9));
            assert(e.subrange(1, 9) =~= u64_le_bytes(x));
            lemma_u64_at(b, pos + 1, x);
        },
    }
}

proof fn lemma_opt_felt_round_trip(b: Seq<u8>, pos: int, v: Option<Felt>)
    requires
        0 <= pos,
        pos + opt_felt_encoding(v).len() <= b.len(),
        b.subrange(pos, pos + opt_felt_encoding(v).len()) == opt_felt_encoding(v),
        opt_felt_canonical(v),
    ensures
        opt_felt_ok(b, pos),
        opt_felt_size(b, pos) == opt_felt_encoding(v).len(),
        opt_felt_is(b, pos, v),
{
    let e = opt_felt_encoding(v);
    assert(b[pos] == e[0]);
    if let Some(f) = v {
        lemma_felt_len(f);
        assert(b.subrange(pos + 1, pos + 33) =~= e.subrange(1, 33));
        assert(e.subrange(1, 33) =~= f@);
        lemma_felt_at(b, pos + 1, f);
    }
}

/// Decoding the stored form of a node gives the node back, for every node
/// that the format can hold.
pub proof fn lemma_node_encoding_round_trip(n: Node)
    requires
        node_shape_ok(n),
    ensures
        node_bytes_ok(node_encoding(n)),
        node_is(node_encoding(n), n),
{
    let b = node_encoding(n);
    match n {
        Node::Binary(bin) => {
            let o = opt_felt_encoding(bin.hash);
            let hb = u64_le_bytes(bin.height);
            let l = handle_encoding(bin.left);
            let r = handle_encoding(bin.right);
            assert(b == seq![0u8] + o + hb + l + r);
            let h: int = 1 + o.len() as int;
            let after: int = h + 8;
            assert(b.subrange(1, h) =~= o);
            lemma_opt_felt_round_trip(b, 1, bin.hash);
            assert(b.subrange(h, after) =~= hb);
            lemma_u64_at(b, h, bin.height);
            assert(b.subrange(after, after + l.len()) =~= l);
            lemma_handle_round_trip(b, after, bin.left);
            assert(b.subrange(after + l.len(), after + l.len() + r.len()) =~= r);
            lemma_handle_round_trip(b, after + l.len(), bin.right);
        },
        Node::Edge(edge) => {
            let o = opt_felt_encoding(edge.hash);
            let hb = u64_le_bytes(edge.height);
            let p = path_encoding(edge.path@);
            let c = handle_encoding(edge.child);
            assert(b == seq![1u8] + o + hb + p + c);
            let h: int = 1 + o.len() as int;
            let after: int = h + 8;
            assert(b.subrange(1, h) =~= o);
            lemma_opt_felt_round_trip(b, 1, edge.hash);
            assert(b.subrange(h, after) =~= hb);
            lemma_u64_at(b, h, edge.height);
            assert(b[after] == p[0]);
            assert(p.len() == 1 + content_len(edge.path@.len()));
            assert(b.subrange(after, after + p.len()) =~= p);
            lemma_path_encoding_round_trip(edge.path@);
            assert(b.subrange(after + p.len(), after + p.len() + c.len()) =~= c);
            lemma_handle_round_trip(b, after + p.len(), edge.child);
        },
    }
}

fn push_felt(out: &mut Vec<u8>, f: &Felt)
    ensures
        final(out)@ == old(out)@ + f@,
{
    let bytes = f.to_bytes_be();
    proof {
        lemma_felt_len(*f);
    }
    let mut i: usize = 0;
    let ghost start = out@;
    while i < 32
        invariant
            bytes@ == f@,
            bytes@.len() == 32,
            i <= 32,
            out@ == start + f@.subrange(0, i as int),
        decreases 32 - i,
    {
        out.push(bytes[i]);
        i = i + 1;
        assert(f@.subrange(0, i as int) == f@.subrange(0, i - 1).push(f@[i - 1]));
    }
    assert(f@.subrange(0, 32) =~= f@);
}

fn push_u64_le(out: &mut Vec<u8>, x: u64)
    ensures
        final(out)@ == old(out)@ + u64_le_bytes(x),
{
    let ghost start = out@;
    out.push((x & 0xff) as u8);
    out.push(((x >> 8u64) & 0xff) as u8);
    out.push(((x >> 16u64) & 0xff) as u8);
    out.push(((x >> 24u64) & 0xff) as u8);
    out.push(((x >> 32u64) & 0xff) as u8);
    out.push(((x >> 40u64) & 0xff) as u8);
    out.push(((x >> 48u64) & 0xff) as u8);
    out.push(((x >> 56u64) & 0xff) as u8);
    assert(out@ =~= start + u64_le_bytes(x));
}

fn push_opt_felt(out: &mut Vec<u8>, v: &Option<Felt>)
    ensures
        final(out)@ == old(out)@ + opt_felt_encoding(*v),
{
    let ghost start = out@;
    match v {
        None => {
            out.push(0u8);
            assert(out@ =~= start + opt_felt_encoding(*v));
        },
        Some(f) => {
            out.push(1u8);
            push_felt(out, f);
            assert(out@ =~= start + opt_felt_encoding(*v));
        },
    }
}

fn push_handle(out: &mut Vec<u8>, h: &NodeHandle)
    ensures
        final(out)@ == old(out)@ + handle_encoding(*h),
{
    let ghost start = out@;
    match h {
        NodeHandle::Hash(f) => {
            out.push(0u8);
            push_felt(out, f);
            assert(out@ =~= start + handle_encoding(*h));
        },
        NodeHandle::InMemory(x) => {
            out.push(1u8);
            push_u64_le(out, *x);
            assert(out@ =~= start + handle_encoding(*h));
        },
    }
}

impl Node {
    /// The stored form of the node.
    pub fn encode(&self) -> (r: Vec<u8>)
        requires
            node_paths_ok(*self),
        ensures
            r@ == node_encoding(*self),
    {
        let mut out: Vec<u8> = Vec::new();
        match self {
            Node::Binary(bin) => {
                out.push(0u8);
                push_opt_felt(&mut out, &bin.hash);
                push_u64_le(&mut out, bin.height);
                push_handle(&mut out, &bin.left);
                push_handle(&mut out, &bin.right);
            },
            Node::Edge(edge) => {
                out.push(1u8);
                push_opt_felt(&mut out, &edge.hash);
                push_u64_le(&mut out, edge.height);
                let mut p = edge.path.0.to_bytes();
                out.append(&mut p);
                push_handle(&mut out, &edge.child);
            },
        }
        assert(out@ =~= node_encoding(*self));
        out
    }

    /// Decodes a node from the front of a buffer; `None` when the buffer
    /// does not start with a well-formed node.
    pub fn decode(bytes: &[u8]) -> (r: Option<Node>)
        requires
            bytes@.len() < usize::MAX - 64,
        ensures
            r is Some <==> node_bytes_ok(bytes@),
            r matches Some(n) ==> node_is(bytes@, n),
    {
        decode_node(bytes)
    }
}

} // verus!
