use vstd::arithmetic::div_mod::{lemma_mod_equivalence, lemma_small_mod};
use vstd::prelude::*;

use crate::felt::{
    be_value, felt_bytes_of, lemma_be_round_trip, lemma_felt_bytes_injective, lemma_prime_fits,
    pedersen_of, poseidon_of, stark_prime, Felt,
};
use crate::node::{Node, NodeHandle, MAX_KEY_BITS};
use crate::path::{path_to_felt, right_aligned_bytes, PathBits};
use crate::trie::TrieKind;

verus! {

/// One step of an inclusion proof.
#[derive(Debug)]
pub enum ProofNode {
    /// A binary node, given by the hashes of its two children.
    Binary { left: Felt, right: Felt },
    /// An edge node, given by its child's hash and its full segment.
    Edge { child: Felt, path: PathBits },
}

/// The hash of two felts in the family of a trie kind: Poseidon for the
/// class trie, Pedersen for the others.
pub open spec fn kind_hash(kind: TrieKind, a: Seq<u8>, b: Seq<u8>) -> Seq<u8> {
    match kind {
        TrieKind::Class => poseidon_of(a, b),
        _ => pedersen_of(a, b),
    }
}

/// The commitment of a proof node: `H(left, right)` for a binary node,
/// `H(child, felt(path)) + len(path)` in the field for an edge.
pub open spec fn proof_node_hash(kind: TrieKind, n: ProofNode) -> Seq<u8> {
    match n {
        ProofNode::Binary { left, right } => kind_hash(kind, left@, right@),
        ProofNode::Edge { child, path } => felt_bytes_of(
            be_value(kind_hash(kind, child@, right_aligned_bytes(path@))) + path@.len(),
        ),
    }
}

/// Every edge segment in the proof is a key path of at most 251 bits.
pub open spec fn proof_paths_ok(proof: Seq<ProofNode>) -> bool {
    forall|i: int|
        0 <= i < proof.len() ==> (#[trigger] proof[i] matches ProofNode::Edge { path, .. } ==> path@.len()
            <= MAX_KEY_BITS)
}

/// Whether the proof nodes from index `i` on check out, given the commitment
/// `current` that they must open and the number of key bits walked so far.
pub open spec fn verifies_from(
    kind: TrieKind,
    key: Seq<bool>,
    proof: Seq<ProofNode>,
    i: int,
    current: Seq<u8>,
    walked: nat,
) -> bool
    decreases proof.len() - i,
{
    if i < 0 || i >= proof.len() {
        true
    } else if proof_node_hash(kind, proof[i]) != current {
        false
    } else {
        match proof[i] {
            ProofNode::Binary { left, right } => {
                if walked >= key.len() {
                    false
                } else {
                    verifies_from(
                        kind,
                        key,
                        proof,
                        i + 1,
                        if key[walked as int] {
                            right@
                        } else {
                            left@
                        },
                        walked + 1,
                    )
                }
            },
            ProofNode::Edge { child, path } => {
                if walked + path@.len() > key.len() || key.subrange(
                    walked as int,
                    (walked + path@.len()) as int,
                ) != path@ {
                    false
                } else {
                    verifies_from(kind, key, proof, i + 1, child@, walked + path@.len())
                }
            },
        }
    }
}

/// Whether a proof opens the root commitment along the key.
pub open spec fn proof_verifies(
    root: Seq<u8>,
    key: Seq<bool>,
    proof: Seq<ProofNode>,
    kind: TrieKind,
) -> bool {
    verifies_from(kind, key, proof, 0, root, 0)
}

impl ProofNode {
    /// The commitment of the node under the hash family of `kind`.
    pub fn hash(&self, kind: TrieKind) -> (r: Felt)
        requires
            self matches ProofNode::Edge { path, .. } ==> path@.len() <= MAX_KEY_BITS,
        ensures
            r@ == proof_node_hash(kind, *self),
    {
        match self {
            ProofNode::Binary { left, right } => hash_pair(kind, left, right),
            ProofNode::Edge { child, path } => hash_edge(kind, child, path),
        }
    }
}

fn hash_pair(kind: TrieKind, a: &Felt, b: &Felt) -> (r: Felt)
    ensures
        r@ == kind_hash(kind, a@, b@),
{
    match kind {
        TrieKind::Class => Felt::poseidon(a, b),
        _ => Felt::pedersen(a, b),
    }
}

fn hash_edge(kind: TrieKind, child: &Felt, path: &PathBits) -> (r: Felt)
    requires
        path@.len() <= MAX_KEY_BITS,
    ensures
        r@ == felt_bytes_of(
            be_value(kind_hash(kind, child@, right_aligned_bytes(path@))) + path@.len(),
        ),
{
    let felt_path = path_to_felt(path);
    let h = hash_pair(kind, child, &felt_path);
    let length = Felt::from_u64(path.len() as u64);
    proof {
        lemma_prime_fits();
        lemma_be_round_trip(path@.len() % stark_prime(), 32);
        assert(path@.len() % stark_prime() == path@.len());
    }
    h.add(&length)
}

/// Checks a proof against a root commitment, walking the key from its first
/// bit: each node must hash to the commitment handed down, a binary node
/// may not run past the key, and an edge's segment must be the next bits of
/// the key. A proof that stops before the key's end is accepted.
pub fn verify_proof(root: Felt, key: &PathBits, proof: &Vec<ProofNode>, kind: TrieKind) -> (r:
    bool)
    requires
        proof_paths_ok(proof@),
        key@.len() <= MAX_KEY_BITS,
    ensures
        r == proof_verifies(root@, key@, proof@, kind),
{
    let mut current = root;
    let mut walked: usize = 0;
    let mut i: usize = 0;
    let n = key.len();
    while i < proof.len()
        invariant
            proof_paths_ok(proof@),
            n == key@.len() <= MAX_KEY_BITS,
            i <= proof@.len(),
            walked <= n,
            proof_verifies(root@, key@, proof@, kind) == verifies_from(
                kind,
                key@,
                proof@,
                i as int,
                current@,
                walked as nat,
            ),
        decreases proof@.len() - i,
    {
        let node = &proof[i];
        assert(proof@[i as int] == *node);
        let h = node.hash(kind);
        if h != current {
            return false;
        }
        match node {
            ProofNode::Binary { left, right } => {
                if walked >= n {
                    return false;
                }
                let direction = key.get(walked);
                current = if direction {
                    *right
                } else {
                    *left
                };
                walked = walked + 1;
            },
            ProofNode::Edge { child, path } => {
                let m = path.len();
                if walked + m > n {
                    return false;
                }
                let mut j: usize = 0;
                while j < m
                    invariant
                        proof_verifies(root@, key@, proof@, kind) == verifies_from(
                            kind,
                            key@,
                            proof@,
                            i as int,
                            current@,
                            walked as nat,
                        ),
                        i < proof@.len(),
                        proof@[i as int] == *node,
                        *node == (ProofNode::Edge { child: *child, path: *path }),
                        proof_node_hash(kind, *node) == current@,
                        walked + m <= n == key@.len(),
                        m == path@.len(),
                        j <= m,
                        forall|q: int| 0 <= q < j ==> key@[walked + q] == path@[q],
                    decreases m - j,
                {
                    if key.get(walked + j) != path.get(j) {
                        assert(key@.subrange(walked as int, walked + m)[j as int] != path@[j as int]);
                        assert(key@.subrange(walked as int, walked + m) != path@);
                        return false;
                    }
                    j = j + 1;
                }
                assert(key@.subrange(walked as int, walked + m) =~= path@);
                current = *child;
                walked = walked + m;
            },
        }
        i = i + 1;
    }
    true
}


/// What a walk does after taking in a node.
#[derive(Clone, Copy, Debug, PartialEq, Eq, Structural)]
pub enum WalkStatus {
    /// The walk needs the node stored at its walked path next.
    Continue,
    /// The proof is complete.
    Finished,
    /// No proof can be built: a node was missing, had a child that is not
    /// persisted, or was an edge whose empty segment would not move the
    /// walk on.
    Failed,
}

/// The proof node that a loaded node contributes; `None` when the node is
/// missing or has a child without a hash.
pub open spec fn loaded_proof_node(node: Option<Node>) -> Option<ProofNode> {
    match node {
        None => None,
        Some(Node::Binary(bin)) => match (bin.left, bin.right) {
            (NodeHandle::Hash(left), NodeHandle::Hash(right)) => Some(
                ProofNode::Binary { left, right },
            ),
            _ => None,
        },
        Some(Node::Edge(edge)) => match edge.child {
            NodeHandle::Hash(child) => Some(ProofNode::Edge { child, path: edge.path.0 }),
            _ => None,
        },
    }
}

/// Whether a walk that has covered `walked` ends on taking in `n`: a binary
/// node ends it once the whole key is covered, an edge once the key's end is
/// reached or passed.
pub open spec fn walk_ends(walked: Seq<bool>, key: Seq<bool>, n: ProofNode) -> bool {
    match n {
        ProofNode::Binary { .. } => walked.len() >= key.len(),
        ProofNode::Edge { path, .. } => walked.len() + path@.len() >= key.len(),
    }
}

/// Whether taking in `n` would leave the walk where it is, short of the
/// key's end: an edge with an empty segment. The walk fails there rather
/// than load the same node again.
pub open spec fn walk_stalls(walked: Seq<bool>, key: Seq<bool>, n: ProofNode) -> bool {
    !walk_ends(walked, key, n) && (n matches ProofNode::Edge { path, .. } && path@.len() == 0)
}

/// The path that a walk goes on to: the next key bit after a binary node,
/// the whole segment after an edge.
pub open spec fn walk_next(walked: Seq<bool>, key: Seq<bool>, n: ProofNode) -> Seq<bool> {
    match n {
        ProofNode::Binary { .. } => walked.push(key[walked.len() as int]),
        ProofNode::Edge { path, .. } => walked + path@,
    }
}

/// The construction of an inclusion proof, one loaded node at a time. The
/// caller loads the root, hands it to `step`, and while the answer is
/// `Continue` loads the node stored at `walked()` and hands that in. Each
/// `Continue` lengthens the walked path, which never passes the key's
/// length, so a walk takes in at most one node more than the key has bits.
pub struct ProofWalk {
    key: PathBits,
    walked: PathBits,
    proof: Vec<ProofNode>,
}

impl ProofWalk {
    pub closed spec fn key_bits(&self) -> Seq<bool> {
        self.key@
    }

    pub closed spec fn walked_bits(&self) -> Seq<bool> {
        self.walked@
    }

    pub closed spec fn proof_nodes(&self) -> Seq<ProofNode> {
        self.proof@
    }

    pub open spec fn wf(&self) -> bool {
        &&& self.key_bits().len() <= MAX_KEY_BITS
        &&& self.walked_bits().len() <= self.key_bits().len()
    }

    /// A walk for `key` that has covered nothing yet.
    pub fn new(key: PathBits) -> (r: ProofWalk)
        requires
            key@.len() <= MAX_KEY_BITS,
        ensures
            r.wf(),
            r.key_bits() == key@,
            r.walked_bits() == Seq::<bool>::empty(),
            r.proof_nodes() == Seq::<ProofNode>::empty(),
    {
        ProofWalk { key, walked: PathBits::default(), proof: Vec::new() }
    }

    /// The path of the node to load next.
    pub fn walked(&self) -> (r: &PathBits)
        ensures
            r@ == self.walked_bits(),
    {
        &self.walked
    }

    /// The proof built so far.
    pub fn into_proof(self) -> (r: Vec<ProofNode>)
        ensures
            r@ == self.proof_nodes(),
    {
        self.proof
    }

    /// Takes in the node loaded at the walked path (`None` when there is
    /// none) and says how the walk goes on.
    pub fn step(&mut self, node: Option<Node>) -> (r: WalkStatus)
        requires
            old(self).wf(),
        ensures
            final(self).wf(),
            final(self).key_bits() == old(self).key_bits(),
            r == WalkStatus::Continue ==> final(self).walked_bits().len() > old(
                self,
            ).walked_bits().len(),
            match loaded_proof_node(node) {
                None => {
                    &&& r == WalkStatus::Failed
                    &&& final(self).walked_bits() == old(self).walked_bits()
                    &&& final(self).proof_nodes() == old(self).proof_nodes()
                },
                Some(n) => if walk_stalls(old(self).walked_bits(), old(self).key_bits(), n) {
                    &&& r == WalkStatus::Failed
                    &&& final(self).walked_bits() == old(self).walked_bits()
                    &&& final(self).proof_nodes() == old(self).proof_nodes()
                } else {
                    &&& final(self).proof_nodes() == old(self).proof_nodes().push(n)
                    &&& r == if walk_ends(old(self).walked_bits(), old(self).key_bits(), n) {
                        WalkStatus::Finished
                    } else {
                        WalkStatus::Continue
                    }
                    &&& r == WalkStatus::Continue ==> final(self).walked_bits() == walk_next(
                        old(self).walked_bits(),
                        old(self).key_bits(),
                        n,
                    )
                },
            },
    {
        match node {
            None => WalkStatus::Failed,
            Some(Node::Binary(bin)) => {
                let left = match bin.left {
                    NodeHandle::Hash(f) => f,
                    NodeHandle::InMemory(_) => return WalkStatus::Failed,
                };
                let right = match bin.right {
                    NodeHandle::Hash(f) => f,
                    NodeHandle::InMemory(_) => return WalkStatus::Failed,
                };
                self.proof.push(ProofNode::Binary { left, right });
                let i = self.walked.len();
                if i >= self.key.len() {
                    return WalkStatus::Finished;
                }
                let direction = self.key.get(i);
                self.walked.push(direction);
                WalkStatus::Continue
            },
            Some(Node::Edge(edge)) => {
                let child = match edge.child {
                    NodeHandle::Hash(f) => f,
                    NodeHandle::InMemory(_) => return WalkStatus::Failed,
                };
                let ends = edge.path.len() >= self.key.len() - self.walked.len();
                if !ends && edge.path.len() == 0 {
                    return WalkStatus::Failed;
                }
                if !ends {
                    self.walked.extend_from_bitslice(&edge.path.0);
                }
                self.proof.push(ProofNode::Edge { child, path: edge.path.0 });
                if ends {
                    WalkStatus::Finished
                } else {
                    WalkStatus::Continue
                }
            },
        }
    }
}

/// The number of key bits that a proof node walks.
pub open spec fn node_bits(n: ProofNode) -> nat {
    match n {
        ProofNode::Binary { .. } => 1,
        ProofNode::Edge { path, .. } => path@.len(),
    }
}

/// The number of key bits that the proof nodes from index `i` on walk.
pub open spec fn bits_walked_from(proof: Seq<ProofNode>, i: int) -> nat
    decreases proof.len() - i,
{
    if i < 0 || i >= proof.len() {
        0
    } else {
        node_bits(proof[i]) + bits_walked_from(proof, i + 1)
    }
}

proof fn lemma_tampered_from(
    kind: TrieKind,
    key: Seq<bool>,
    proof: Seq<ProofNode>,
    i: int,
    n: ProofNode,
    j: int,
    current: Seq<u8>,
    walked: nat,
)
    requires
        0 <= j <= i < proof.len(),
        verifies_from(kind, key, proof, j, current, walked),
        proof_node_hash(kind, n) != proof_node_hash(kind, proof[i]),
    ensures
        !verifies_from(kind, key, proof.update(i, n), j, current, walked),
    decreases i - j,
{
    let tampered = proof.update(i, n);
    if j < i {
        assert(tampered[j] == proof[j]);
        match proof[j] {
            ProofNode::Binary { left, right } => {
                let next = if key[walked as int] {
                    right@
                } else {
                    left@
                };
                lemma_tampered_from(kind, key, proof, i, n, j + 1, next, walked + 1);
            },
            ProofNode::Edge { child, path } => {
                lemma_tampered_from(kind, key, proof, i, n, j + 1, child@, walked + path@.len());
            },
        }
    }
}

/// In a proof that verifies, putting in place of any node one whose hash
/// differs (as flipping a bit of one of its felts does, short of a hash
/// collision) makes the proof fail.
pub proof fn lemma_tampered_node_rejected(
    root: Seq<u8>,
    key: Seq<bool>,
    proof: Seq<ProofNode>,
    kind: TrieKind,
    i: int,
    n: ProofNode,
)
    requires
        proof_verifies(root, key, proof, kind),
        0 <= i < proof.len(),
        proof_node_hash(kind, n) != proof_node_hash(kind, proof[i]),
    ensures
        !proof_verifies(root, key, proof.update(i, n), kind),
{
    lemma_tampered_from(kind, key, proof, i, n, 0, root, 0);
}

/// A non-empty proof that verifies against one root fails against any other.
pub proof fn lemma_other_root_rejected(
    root: Seq<u8>,
    other: Seq<u8>,
    key: Seq<bool>,
    proof: Seq<ProofNode>,
    kind: TrieKind,
)
    requires
        proof_verifies(root, key, proof, kind),
        proof.len() > 0,
        other != root,
    ensures
        !proof_verifies(other, key, proof, kind),
{
}

proof fn lemma_prefix_from(
    kind: TrieKind,
    key: Seq<bool>,
    proof: Seq<ProofNode>,
    k: int,
    j: int,
    current: Seq<u8>,
    walked: nat,
)
    requires
        0 <= j <= k <= proof.len(),
        verifies_from(kind, key, proof, j, current, walked),
    ensures
        verifies_from(kind, key, proof.subrange(0, k), j, current, walked),
    decreases k - j,
{
    let prefix = proof.subrange(0, k);
    if j < k {
        assert(prefix[j] == proof[j]);
        match proof[j] {
            ProofNode::Binary { left, right } => {
                let next = if key[walked as int] {
                    right@
                } else {
                    left@
                };
                lemma_prefix_from(kind, key, proof, k, j + 1, next, walked + 1);
            },
            ProofNode::Edge { child, path } => {
                lemma_prefix_from(kind, key, proof, k, j + 1, child@, walked + path@.len());
            },
        }
    }
}

/// Every prefix of a proof that verifies also verifies: the verifier accepts
/// a walk that stops short of the key's end.
pub proof fn lemma_prefix_accepted(
    root: Seq<u8>,
    key: Seq<bool>,
    proof: Seq<ProofNode>,
    kind: TrieKind,
    k: int,
)
    requires
        proof_verifies(root, key, proof, kind),
        0 <= k <= proof.len(),
    ensures
        proof_verifies(root, key, proof.subrange(0, k), kind),
{
    lemma_prefix_from(kind, key, proof, k, 0, root, 0);
}

proof fn lemma_overrun_from(
    kind: TrieKind,
    key: Seq<bool>,
    proof: Seq<ProofNode>,
    extra: ProofNode,
    j: int,
    current: Seq<u8>,
    walked: nat,
)
    requires
        0 <= j <= proof.len(),
        extra is Binary,
        verifies_from(kind, key, proof, j, current, walked),
        walked + bits_walked_from(proof, j) >= key.len(),
    ensures
        !verifies_from(kind, key, proof.push(extra), j, current, walked),
    decreases proof.len() - j,
{
    let longer = proof.push(extra);
    if j < proof.len() {
        assert(longer[j] == proof[j]);
        match proof[j] {
            ProofNode::Binary { left, right } => {
                let next = if key[walked as int] {
                    right@
                } else {
                    left@
                };
                lemma_overrun_from(kind, key, proof, extra, j + 1, next, walked + 1);
            },
            ProofNode::Edge { child, path } => {
                lemma_overrun_from(kind, key, proof, extra, j + 1, child@, walked + path@.len());
            },
        }
    } else {
        assert(longer[j] == extra);
    }
}

/// A proof that verifies and walks the whole key fails once a further
/// binary node is appended: that node would run past the key.
pub proof fn lemma_overrun_rejected(
    root: Seq<u8>,
    key: Seq<bool>,
    proof: Seq<ProofNode>,
    kind: TrieKind,
    extra: ProofNode,
)
    requires
        proof_verifies(root, key, proof, kind),
        bits_walked_from(proof, 0) >= key.len(),
        extra is Binary,
    ensures
        !proof_verifies(root, key, proof.push(extra), kind),
{
    lemma_overrun_from(kind, key, proof, extra, 0, root, 0);
}

/// Two edges over the same child whose segments denote the same number but
/// differ in length hash differently: the length is folded into the hash.
pub proof fn lemma_edge_length_bound(kind: TrieKind, child: Felt, path_a: PathBits, path_b: PathBits)
    requires
        right_aligned_bytes(path_a@) == right_aligned_bytes(path_b@),
        path_a@.len() != path_b@.len(),
        path_a@.len() <= MAX_KEY_BITS,
        path_b@.len() <= MAX_KEY_BITS,
    ensures
        proof_node_hash(kind, (ProofNode::Edge { child, path: path_a })) != proof_node_hash(
            kind,
            (ProofNode::Edge { child, path: path_b }),
        ),
{
    let h = be_value(kind_hash(kind, child@, right_aligned_bytes(path_a@)));
    let len_a = path_a@.len();
    let len_b = path_b@.len();
    let p = stark_prime();
    if felt_bytes_of(h + len_a) == felt_bytes_of(h + len_b) {
        lemma_felt_bytes_injective(h + len_a, h + len_b);
        lemma_mod_equivalence((h + len_a) as int, (h + len_b) as int, p as int);
        lemma_mod_equivalence((h + len_b) as int, (h + len_a) as int, p as int);
        if len_a < len_b {
            lemma_small_mod((len_b - len_a) as nat, p);
            assert((h + len_b) - (h + len_a) == len_b - len_a);
        } else {
            lemma_small_mod((len_a - len_b) as nat, p);
            assert((h + len_a) - (h + len_b) == len_a - len_b);
        }
    }
}


/// The proof that a walk for `key` builds over a store of nodes keyed by
/// path, from the walked path on, taking at most `fuel` nodes: what
/// `ProofWalk::step` does when each node it asks for is looked up there.
pub open spec fn walk_from(
    store: Map<Seq<bool>, Node>,
    key: Seq<bool>,
    walked: Seq<bool>,
    fuel: nat,
) -> Option<Seq<ProofNode>>
    decreases fuel,
{
    if fuel == 0 {
        None
    } else {
        let node = if store.dom().contains(walked) {
            Some(store[walked])
        } else {
            None
        };
        match loaded_proof_node(node) {
            None => None,
            Some(n) => if walk_ends(walked, key, n) {
                Some(seq![n])
            } else if walk_stalls(walked, key, n) {
                None
            } else {
                match walk_from(store, key, walk_next(walked, key, n), (fuel - 1) as nat) {
                    None => None,
                    Some(rest) => Some(seq![n] + rest),
                }
            },
        }
    }
}

/// The commitment of a stored node, when all its children are persisted.
pub open spec fn node_commitment(kind: TrieKind, n: Node) -> Option<Seq<u8>> {
    match loaded_proof_node(Some(n)) {
        Some(pn) => Some(proof_node_hash(kind, pn)),
        None => None,
    }
}

/// Whether the commitment of the node stored at `p`, if it has one, is `h`.
pub open spec fn commits_to(store: Map<Seq<bool>, Node>, kind: TrieKind, p: Seq<bool>, h: Seq<u8>) -> bool {
    store.dom().contains(p) ==> (node_commitment(kind, store[p]) matches Some(c) ==> c == h)
}

/// Every stored node's children commit to the hashes that the node records
/// for them.
pub open spec fn store_consistent(store: Map<Seq<bool>, Node>, kind: TrieKind) -> bool {
    forall|p: Seq<bool>|
        #![trigger store.dom().contains(p)]
        store.dom().contains(p) ==> match loaded_proof_node(Some(store[p])) {
            Some(ProofNode::Binary { left, right }) => commits_to(store, kind, p.push(false), left@)
                && commits_to(store, kind, p.push(true), right@),
            Some(ProofNode::Edge { child, path }) => commits_to(store, kind, p + path@, child@),
            None => true,
        }
}

/// The key's leaf is in the trie: along the key, every stored edge's segment
/// is the next bits of the key, and no binary node sits below the key's end.
pub open spec fn store_holds_key(store: Map<Seq<bool>, Node>, key: Seq<bool>) -> bool {
    forall|p: Seq<bool>|
        #![trigger store.dom().contains(p)]
        store.dom().contains(p) && p.len() <= key.len() && p == key.subrange(0, p.len() as int)
            ==> match store[p] {
            Node::Binary(_) => p.len() < key.len(),
            Node::Edge(edge) => p.len() + edge.path@.len() <= key.len() && key.subrange(
                p.len() as int,
                (p.len() + edge.path@.len()) as int,
            ) == edge.path@,
        }
}

proof fn lemma_verifies_shift(
    kind: TrieKind,
    key: Seq<bool>,
    a: Seq<ProofNode>,
    b: Seq<ProofNode>,
    i: int,
    current: Seq<u8>,
    walked: nat,
)
    requires
        0 <= i <= b.len(),
    ensures
        verifies_from(kind, key, a + b, a.len() + i, current, walked) == verifies_from(
            kind,
            key,
            b,
            i,
            current,
            walked,
        ),
    decreases b.len() - i,
{
    if i < b.len() {
        assert((a + b)[a.len() + i] == b[i]);
        match b[i] {
            ProofNode::Binary { left, right } => {
                if walked < key.len() {
                    let next = if key[walked as int] {
                        right@
                    } else {
                        left@
                    };
                    lemma_verifies_shift(kind, key, a, b, i + 1, next, walked + 1);
                }
            },
            ProofNode::Edge { child, path } => {
                lemma_verifies_shift(kind, key, a, b, i + 1, child@, walked + path@.len());
            },
        }
    }
}

proof fn lemma_walk_verifies_from(
    store: Map<Seq<bool>, Node>,
    key: Seq<bool>,
    kind: TrieKind,
    walked: Seq<bool>,
    current: Seq<u8>,
    fuel: nat,
)
    requires
        store_consistent(store, kind),
        store_holds_key(store, key),
        walked.len() <= key.len(),
        walked == key.subrange(0, walked.len() as int),
        commits_to(store, kind, walked, current),
        walk_from(store, key, walked, fuel) is Some,
    ensures
        verifies_from(kind, key, walk_from(store, key, walked, fuel).unwrap(), 0, current, walked.len()),
    decreases fuel,
{
    let node = store[walked];
    assert(store.dom().contains(walked));
    let n = loaded_proof_node(Some(node)).unwrap();
    let built = walk_from(store, key, walked, fuel).unwrap();
    assert(built[0] == n);
    match n {
        ProofNode::Binary { left, right } => {
            assert(node is Binary);
            let next = walked.push(key[walked.len() as int]);
            let h = if key[walked.len() as int] {
                right@
            } else {
                left@
            };
            let rest = walk_from(store, key, next, (fuel - 1) as nat).unwrap();
            assert(built == seq![n] + rest);
            assert(next =~= key.subrange(0, next.len() as int));
            assert(walked.len() < key.len());
            assert(commits_to(store, kind, next, h));
            lemma_walk_verifies_from(store, key, kind, next, h, (fuel - 1) as nat);
            lemma_verifies_shift(kind, key, seq![n], rest, 0, h, walked.len() + 1);
            assert(proof_node_hash(kind, built[0]) == current);
            assert(verifies_from(kind, key, built, 1, h, walked.len() + 1));
            assert(verifies_from(kind, key, built, 0, current, walked.len()));
        },
        ProofNode::Edge { child, path } => {
            assert(node is Edge);
            if !walk_ends(walked, key, n) {
                let next = walked + path@;
                let rest = walk_from(store, key, next, (fuel - 1) as nat).unwrap();
                assert(built == seq![n] + rest);
                assert(next =~= key.subrange(0, next.len() as int));
                lemma_walk_verifies_from(store, key, kind, next, child@, (fuel - 1) as nat);
                lemma_verifies_shift(kind, key, seq![n], rest, 0, child@, next.len());
                assert(verifies_from(kind, key, built, 1, child@, next.len()));
            } else {
                assert(built == seq![n]);
                assert(verifies_from(kind, key, built, 1, child@, walked.len() + path@.len()));
            }
            assert(proof_node_hash(kind, built[0]) == current);
            assert(verifies_from(kind, key, built, 0, current, walked.len()));
        },
    }
}

/// Over a store whose nodes are hash-consistent and hold the key's leaf,
/// the proof that the walk builds for the key verifies against the root's
/// commitment.
pub proof fn lemma_built_proof_verifies(
    store: Map<Seq<bool>, Node>,
    key: Seq<bool>,
    kind: TrieKind,
    root: Seq<u8>,
    fuel: nat,
)
    requires
        store_consistent(store, kind),
        store_holds_key(store, key),
        store.dom().contains(Seq::<bool>::empty()),
        node_commitment(kind, store[Seq::<bool>::empty()]) == Some(root),
        walk_from(store, key, Seq::<bool>::empty(), fuel) is Some,
    ensures
        proof_verifies(root, key, walk_from(store, key, Seq::<bool>::empty(), fuel).unwrap(), kind),
{
    assert(Seq::<bool>::empty() =~= key.subrange(0, 0));
    lemma_walk_verifies_from(store, key, kind, Seq::<bool>::empty(), root, fuel);
}

} // verus!
