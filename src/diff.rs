use vstd::prelude::*;
use vstd::slice::{slice_subrange, slice_to_vec};

use crate::path::{path_decoding, PathBits};
use crate::trie::{class_prefix, contract_prefix, TrieKind};

verus! {

/// The length of a storage trie's identifier: a felt's 32 bytes.
pub const STORAGE_IDENTIFIER_LEN: usize = 32;

/// The length of the block prefix of a log key: eight bytes and a zero.
pub const BLOCK_PREFIX_LEN: usize = 9;

/// One change recorded in a block's log.
#[derive(Debug)]
pub struct TrieLogEntry {
    pub block: u64,
    pub trie_kind: TrieKind,
    pub identifier: Vec<u8>,
    pub key_bits: Option<PathBits>,
    pub key_type: u8,
    pub change_type: u8,
    pub value: Vec<u8>,
}

pub open spec fn starts_with(s: Seq<u8>, p: Seq<u8>) -> bool {
    p.len() <= s.len() && s.subrange(0, p.len() as int) == p
}

/// The prefix of every log key of a block: the block number as eight
/// big-endian bytes, then a zero byte.
pub open spec fn block_prefix(block: u64) -> Seq<u8> {
    seq![
        (block >> 56u64) as u8,
        (block >> 48u64) as u8,
        (block >> 40u64) as u8,
        (block >> 32u64) as u8,
        (block >> 24u64) as u8,
        (block >> 16u64) as u8,
        (block >> 8u64) as u8,
        block as u8,
        0u8,
    ]
}

/// How a log's trie key reads: its trie kind, its identifier and, when the
/// key is well formed, the path that follows the identifier.
pub open spec fn trie_key_parts(b: Seq<u8>) -> (TrieKind, Seq<u8>, Option<Seq<bool>>) {
    if starts_with(b, contract_prefix()) {
        (
            TrieKind::Contract,
            contract_prefix(),
            Some(path_decoding(b.subrange(contract_prefix().len() as int, b.len() as int))),
        )
    } else if starts_with(b, class_prefix()) {
        (
            TrieKind::Class,
            class_prefix(),
            Some(path_decoding(b.subrange(class_prefix().len() as int, b.len() as int))),
        )
    } else if b.len() >= STORAGE_IDENTIFIER_LEN {
        (
            TrieKind::Storage,
            b.subrange(0, STORAGE_IDENTIFIER_LEN as int),
            Some(path_decoding(b.subrange(STORAGE_IDENTIFIER_LEN as int, b.len() as int))),
        )
    } else {
        (TrieKind::Contract, b, None)
    }
}

pub open spec fn opt_path_view(p: Option<PathBits>) -> Option<Seq<bool>> {
    match p {
        Some(x) => Some(x@),
        None => None,
    }
}

/// Whether `e` is the entry that a log row of a block decodes to. The key
/// is the block prefix, the trie key, then the key-type and change-type bytes.
pub open spec fn entry_is(e: TrieLogEntry, block: u64, key: Seq<u8>, value: Seq<u8>) -> bool {
    let parts = trie_key_parts(key.subrange(BLOCK_PREFIX_LEN as int, key.len() - 2));
    &&& e.block == block
    &&& e.trie_kind == parts.0
    &&& e.identifier@ == parts.1
    &&& opt_path_view(e.key_bits) == parts.2
    &&& e.key_type == key[key.len() - 2]
    &&& e.change_type == key[key.len() - 1]
    &&& e.value@ == value
}

/// A key long enough to hold the block prefix, a trie-key byte and the two tag bytes.
pub open spec fn key_long_enough(key: Seq<u8>) -> bool {
    key.len() >= BLOCK_PREFIX_LEN + 3
}

/// The index of the first row, from `i` on, whose key leaves the prefix
/// (the number of rows when none does).
pub open spec fn first_outside(rows: Seq<(Vec<u8>, Vec<u8>)>, prefix: Seq<u8>, i: int) -> int
    decreases rows.len() - i,
{
    if i < 0 || i >= rows.len() {
        rows.len() as int
    } else if !starts_with(rows[i].0@, prefix) {
        i
    } else {
        first_outside(rows, prefix, i + 1)
    }
}

/// The rows among the first `n` whose keys are long enough to decode.
pub open spec fn decodable_rows(rows: Seq<(Vec<u8>, Vec<u8>)>, n: int) -> Seq<(Vec<u8>, Vec<u8>)>
    decreases n,
{
    if n <= 0 || n > rows.len() {
        Seq::empty()
    } else if key_long_enough(rows[n - 1].0@) {
        decodable_rows(rows, n - 1).push(rows[n - 1])
    } else {
        decodable_rows(rows, n - 1)
    }
}

/// The rows of a block's log that decode to entries: those before the first
/// key outside the block's prefix whose keys are long enough.
pub open spec fn block_log_rows(rows: Seq<(Vec<u8>, Vec<u8>)>, block: u64) -> Seq<
    (Vec<u8>, Vec<u8>),
> {
    decodable_rows(rows, first_outside(rows, block_prefix(block), 0))
}

fn slice_starts_with(s: &[u8], p: &[u8]) -> (r: bool)
    ensures
        r == starts_with(s@, p@),
{
    if p.len() > s.len() {
        return false;
    }
    let mut i: usize = 0;
    while i < p.len()
        invariant
            p@.len() <= s@.len(),
            i <= p@.len(),
            forall|j: int| 0 <= j < i ==> s@[j] == p@[j],
        decreases p@.len() - i,
    {
        if s[i] != p[i] {
            assert(s@.subrange(0, p@.len() as int)[i as int] != p@[i as int]);
            return false;
        }
        i = i + 1;
    }
    assert(s@.subrange(0, p@.len() as int) =~= p@);
    true
}

/// The bytes that begin every log key of `block`.
pub fn block_log_prefix(block: u64) -> (r: Vec<u8>)
    ensures
        r@ == block_prefix(block),
{
    let r = vec![
        (block >> 56u64) as u8,
        (block >> 48u64) as u8,
        (block >> 40u64) as u8,
        (block >> 32u64) as u8,
        (block >> 24u64) as u8,
        (block >> 16u64) as u8,
        (block >> 8u64) as u8,
        block as u8,
        0u8,
    ];
    assert(r@ =~= block_prefix(block));
    r
}

/// Whether a scanned key still belongs to the block whose prefix is given.
pub fn in_block_log(prefix: &Vec<u8>, key: &Vec<u8>) -> (r: bool)
    ensures
        r == starts_with(key@, prefix@),
{
    slice_starts_with(key.as_slice(), prefix.as_slice())
}

/// Splits a log's trie key into its trie kind, its identifier and the path
/// that follows; a key that names no trie comes back whole, with no path.
pub fn parse_trie_key(bytes: &[u8]) -> (r: (TrieKind, Vec<u8>, Option<PathBits>))
    ensures
        ({
            let parts = trie_key_parts(bytes@);
            r.0 == parts.0 && r.1@ == parts.1 && opt_path_view(r.2) == parts.2
        }),
{
    let contract = TrieKind::Contract.identifier();
    if slice_starts_with(bytes, contract.as_slice()) {
        let rest = slice_subrange(bytes, contract.len(), bytes.len());
        return (TrieKind::Contract, contract, Some(PathBits::from_encoded(rest)));
    }
    let class = TrieKind::Class.identifier();
    if slice_starts_with(bytes, class.as_slice()) {
        let rest = slice_subrange(bytes, class.len(), bytes.len());
        return (TrieKind::Class, class, Some(PathBits::from_encoded(rest)));
    }
    if bytes.len() >= STORAGE_IDENTIFIER_LEN {
        let identifier = slice_to_vec(slice_subrange(bytes, 0, STORAGE_IDENTIFIER_LEN));
        let rest = slice_subrange(bytes, STORAGE_IDENTIFIER_LEN, bytes.len());
        return (TrieKind::Storage, identifier, Some(PathBits::from_encoded(rest)));
    }
    (TrieKind::Contract, slice_to_vec(bytes), None)
}

proof fn lemma_first_outside(rows: Seq<(Vec<u8>, Vec<u8>)>, prefix: Seq<u8>, j: int, i: int)
    requires
        0 <= j <= i <= rows.len(),
        forall|k: int| j <= k < i ==> starts_with(#[trigger] rows[k].0@, prefix),
        i == rows.len() || !starts_with(rows[i].0@, prefix),
    ensures
        first_outside(rows, prefix, j) == i,
    decreases i - j,
{
    if j < i {
        lemma_first_outside(rows, prefix, j + 1, i);
    }
}

/// Decodes the log of `block` from the rows of a forward scan that starts
/// at the block's prefix, in key order: it stops at the first key outside
/// the prefix and skips keys too short to hold a trie key and both tags.
pub fn read_block_log(rows: &Vec<(Vec<u8>, Vec<u8>)>, block: u64) -> (r: Vec<TrieLogEntry>)
    ensures
        r@.len() == block_log_rows(rows@, block).len(),
        forall|k: int|
            0 <= k < r@.len() ==> entry_is(
                #[trigger] r@[k],
                block,
                block_log_rows(rows@, block)[k].0@,
                block_log_rows(rows@, block)[k].1@,
            ),
{
    let prefix = block_log_prefix(block);
    let mut entries: Vec<TrieLogEntry> = Vec::new();
    let mut i: usize = 0;
    let mut left_block = false;
    while i < rows.len() && !left_block
        invariant
            prefix@ == block_prefix(block),
            i <= rows@.len(),
            left_block ==> i < rows@.len() && !starts_with(rows@[i as int].0@, prefix@),
            forall|k: int| 0 <= k < i ==> starts_with(#[trigger] rows@[k].0@, prefix@),
            entries@.len() == decodable_rows(rows@, i as int).len(),
            forall|k: int|
                0 <= k < entries@.len() ==> entry_is(
                    #[trigger] entries@[k],
                    block,
                    decodable_rows(rows@, i as int)[k].0@,
                    decodable_rows(rows@, i as int)[k].1@,
                ),
        decreases rows@.len() - i + (if left_block {
            0int
        } else {
            1int
        }),
    {
        let key = &rows[i].0;
        if !in_block_log(&prefix, key) {
            left_block = true;
        } else if key.len() >= BLOCK_PREFIX_LEN + 3 {
            let n = key.len();
            let key_type = key[n - 2];
            let change_type = key[n - 1];
            let trie_key = slice_subrange(key.as_slice(), BLOCK_PREFIX_LEN, n - 2);
            let (trie_kind, identifier, key_bits) = parse_trie_key(trie_key);
            let value = slice_to_vec(rows[i].1.as_slice());
            entries.push(
                TrieLogEntry { block, trie_kind, identifier, key_bits, key_type, change_type, value },
            );
            i = i + 1;
        } else {
            i = i + 1;
        }
    }
    proof {
        lemma_first_outside(rows@, prefix@, 0, i as int);
    }
    entries
}

/// Every row that the log of a block decodes has a key that starts with the
/// block's prefix and is long enough to hold a trie key and both tags.
pub proof fn lemma_block_log_rows_in_block(rows: Seq<(Vec<u8>, Vec<u8>)>, block: u64, k: int)
    requires
        0 <= k < block_log_rows(rows, block).len(),
    ensures
        starts_with(block_log_rows(rows, block)[k].0@, block_prefix(block)),
        key_long_enough(block_log_rows(rows, block)[k].0@),
{
    let prefix = block_prefix(block);
    let stop = first_outside(rows, prefix, 0);
    lemma_first_outside_prefix(rows, prefix, 0);
    lemma_decodable_rows(rows, stop, prefix, k);
}

proof fn lemma_first_outside_prefix(rows: Seq<(Vec<u8>, Vec<u8>)>, prefix: Seq<u8>, j: int)
    requires
        0 <= j <= rows.len(),
    ensures
        j <= first_outside(rows, prefix, j) <= rows.len(),
        forall|k: int|
            j <= k < first_outside(rows, prefix, j) ==> starts_with(#[trigger] rows[k].0@, prefix),
    decreases rows.len() - j,
{
    if j < rows.len() && starts_with(rows[j].0@, prefix) {
        lemma_first_outside_prefix(rows, prefix, j + 1);
    }
}

proof fn lemma_decodable_rows(rows: Seq<(Vec<u8>, Vec<u8>)>, n: int, prefix: Seq<u8>, k: int)
    requires
        0 <= n <= rows.len(),
        forall|q: int| 0 <= q < n ==> starts_with(#[trigger] rows[q].0@, prefix),
        0 <= k < decodable_rows(rows, n).len(),
    ensures
        starts_with(decodable_rows(rows, n)[k].0@, prefix),
        key_long_enough(decodable_rows(rows, n)[k].0@),
    decreases n,
{
    if n > 0 {
        if key_long_enough(rows[n - 1].0@) && k == decodable_rows(rows, n - 1).len() {
        } else {
            lemma_decodable_rows(rows, n - 1, prefix, k);
        }
    }
}


/// How a decoded log entry is classified, from the trie key between the
/// block prefix and the two tag bytes: a key that begins with `0xcontract`
/// is the contract trie's, one that begins with `0xclass` the class trie's,
/// and any other of at least 32 bytes a storage trie's, whose first 32
/// bytes name it; the path is what follows the identifier.
pub proof fn lemma_log_entry_classified(
    e: TrieLogEntry,
    block: u64,
    trie_key: Seq<u8>,
    key_type: u8,
    change_type: u8,
    value: Seq<u8>,
)
    requires
        entry_is(e, block, block_prefix(block) + trie_key + seq![key_type, change_type], value),
    ensures
        e.block == block,
        e.key_type == key_type,
        e.change_type == change_type,
        e.value@ == value,
        starts_with(trie_key, contract_prefix()) ==> {
            &&& e.trie_kind == TrieKind::Contract
            &&& e.identifier@ == contract_prefix()
            &&& opt_path_view(e.key_bits) == Some(
                path_decoding(trie_key.subrange(10, trie_key.len() as int)),
            )
        },
        !starts_with(trie_key, contract_prefix()) && starts_with(trie_key, class_prefix()) ==> {
            &&& e.trie_kind == TrieKind::Class
            &&& e.identifier@ == class_prefix()
            &&& opt_path_view(e.key_bits) == Some(
                path_decoding(trie_key.subrange(7, trie_key.len() as int)),
            )
        },
        !starts_with(trie_key, contract_prefix()) && !starts_with(trie_key, class_prefix())
            && trie_key.len() >= 32 ==> {
            &&& e.trie_kind == TrieKind::Storage
            &&& e.identifier@ == trie_key.subrange(0, 32)
            &&& opt_path_view(e.key_bits) == Some(
                path_decoding(trie_key.subrange(32, trie_key.len() as int)),
            )
        },
{
    let key = block_prefix(block) + trie_key + seq![key_type, change_type];
    assert(key.subrange(BLOCK_PREFIX_LEN as int, key.len() - 2) =~= trie_key);
    assert(key[key.len() - 2] == key_type);
    assert(key[key.len() - 1] == change_type);
}

} // verus!
