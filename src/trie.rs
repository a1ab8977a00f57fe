use vstd::prelude::*;
use vstd::string::StringExecFns;

use crate::hex::{felt_text_of, parse_felt_hex};
use crate::path::{path_encoding, PathBits, MAX_ENCODED_BITS};

verus! {

/// The three tries that the store holds.
#[derive(Clone, Copy, Debug, PartialEq, Eq, Structural)]
pub enum TrieKind {
    Contract,
    Storage,
    Class,
}

/// The ASCII bytes `0xcontract`: the identifier of the contract trie.
pub open spec fn contract_prefix() -> Seq<u8> {
    seq![0x30u8, 0x78, 0x63, 0x6f, 0x6e, 0x74, 0x72, 0x61, 0x63, 0x74]
}

/// The ASCII bytes `0xclass`: the identifier of the class trie.
pub open spec fn class_prefix() -> Seq<u8> {
    seq![0x30u8, 0x78, 0x63, 0x6c, 0x61, 0x73, 0x73]
}

/// The fixed identifier of a trie kind; storage tries have none of their own.
pub open spec fn kind_identifier(kind: TrieKind) -> Seq<u8> {
    match kind {
        TrieKind::Contract => contract_prefix(),
        TrieKind::Class => class_prefix(),
        TrieKind::Storage => Seq::empty(),
    }
}

pub const BONSAI_CONTRACT_FLAT: &'static str = "bonsai_contract_flat";
pub const BONSAI_CONTRACT_TRIE: &'static str = "bonsai_contract_trie";
pub const BONSAI_CONTRACT_LOG: &'static str = "bonsai_contract_log";
pub const BONSAI_CONTRACT_STORAGE_FLAT: &'static str = "bonsai_contract_storage_flat";
pub const BONSAI_CONTRACT_STORAGE_TRIE: &'static str = "bonsai_contract_storage_trie";
pub const BONSAI_CONTRACT_STORAGE_LOG: &'static str = "bonsai_contract_storage_log";
pub const BONSAI_CLASS_FLAT: &'static str = "bonsai_class_flat";
pub const BONSAI_CLASS_TRIE: &'static str = "bonsai_class_trie";
pub const BONSAI_CLASS_LOG: &'static str = "bonsai_class_log";

/// The column that holds a kind's trie nodes.
pub open spec fn trie_column_name(kind: TrieKind) -> Seq<char> {
    match kind {
        TrieKind::Contract => BONSAI_CONTRACT_TRIE@,
        TrieKind::Storage => BONSAI_CONTRACT_STORAGE_TRIE@,
        TrieKind::Class => BONSAI_CLASS_TRIE@,
    }
}

/// The column that holds a kind's flat leaves.
pub open spec fn flat_column_name(kind: TrieKind) -> Seq<char> {
    match kind {
        TrieKind::Contract => BONSAI_CONTRACT_FLAT@,
        TrieKind::Storage => BONSAI_CONTRACT_STORAGE_FLAT@,
        TrieKind::Class => BONSAI_CLASS_FLAT@,
    }
}

/// The column that holds a kind's per-block change log.
pub open spec fn log_column_name(kind: TrieKind) -> Seq<char> {
    match kind {
        TrieKind::Contract => BONSAI_CONTRACT_LOG@,
        TrieKind::Storage => BONSAI_CONTRACT_STORAGE_LOG@,
        TrieKind::Class => BONSAI_CLASS_LOG@,
    }
}

/// The nine columns that the store must have, in a fixed order.
pub open spec fn required_column_names() -> Seq<Seq<char>> {
    seq![
        BONSAI_CONTRACT_FLAT@,
        BONSAI_CONTRACT_TRIE@,
        BONSAI_CONTRACT_LOG@,
        BONSAI_CONTRACT_STORAGE_FLAT@,
        BONSAI_CONTRACT_STORAGE_TRIE@,
        BONSAI_CONTRACT_STORAGE_LOG@,
        BONSAI_CLASS_FLAT@,
        BONSAI_CLASS_TRIE@,
        BONSAI_CLASS_LOG@,
    ]
}

impl TrieKind {
    /// The column of this kind's trie nodes.
    pub fn trie_column(self) -> (r: &'static str)
        ensures
            r@ == trie_column_name(self),
    {
        match self {
            TrieKind::Contract => BONSAI_CONTRACT_TRIE,
            TrieKind::Storage => BONSAI_CONTRACT_STORAGE_TRIE,
            TrieKind::Class => BONSAI_CLASS_TRIE,
        }
    }

    /// The column of this kind's flat leaves.
    pub fn flat_column(self) -> (r: &'static str)
        ensures
            r@ == flat_column_name(self),
    {
        match self {
            TrieKind::Contract => BONSAI_CONTRACT_FLAT,
            TrieKind::Storage => BONSAI_CONTRACT_STORAGE_FLAT,
            TrieKind::Class => BONSAI_CLASS_FLAT,
        }
    }

    /// The column of this kind's change log.
    pub fn log_column(self) -> (r: &'static str)
        ensures
            r@ == log_column_name(self),
    {
        match self {
            TrieKind::Contract => BONSAI_CONTRACT_LOG,
            TrieKind::Storage => BONSAI_CONTRACT_STORAGE_LOG,
            TrieKind::Class => BONSAI_CLASS_LOG,
        }
    }

    /// The fixed identifier that prefixes this trie's keys; empty for
    /// storage tries, whose identifier is a contract's felt.
    pub fn identifier(self) -> (r: Vec<u8>)
        ensures
            r@ == kind_identifier(self),
    {
        let r = match self {
            TrieKind::Contract => vec![0x30u8, 0x78, 0x63, 0x6f, 0x6e, 0x74, 0x72, 0x61, 0x63, 0x74],
            TrieKind::Class => vec![0x30u8, 0x78, 0x63, 0x6c, 0x61, 0x73, 0x73],
            TrieKind::Storage => Vec::new(),
        };
        assert(r@ =~= kind_identifier(self));
        r
    }

    /// The display name of the kind.
    pub fn label(self) -> (r: &'static str)
        ensures
            r@ == (match self {
                TrieKind::Contract => "Contract"@,
                TrieKind::Storage => "Storage"@,
                TrieKind::Class => "Class"@,
            }),
    {
        match self {
            TrieKind::Contract => "Contract",
            TrieKind::Storage => "Storage",
            TrieKind::Class => "Class",
        }
    }

    /// The lowercase wire spelling of the kind.
    pub fn wire_name(self) -> (r: &'static str)
        ensures
            r@ == (match self {
                TrieKind::Contract => "contract"@,
                TrieKind::Storage => "storage"@,
                TrieKind::Class => "class"@,
            }),
    {
        match self {
            TrieKind::Contract => "contract",
            TrieKind::Storage => "storage",
            TrieKind::Class => "class",
        }
    }
}


/// Where one trie lives in the store: the identifier that prefixes its keys
/// and its three columns.
#[derive(Debug)]
pub struct TrieSpec {
    pub identifier: Vec<u8>,
    pub trie_cf: String,
    pub flat_cf: String,
    pub log_cf: String,
}

/// The identifier that a trie of `kind` is read under: the kind's own for
/// contract and class tries, a storage trie's contract felt as 32 bytes.
pub open spec fn spec_identifier(kind: TrieKind, id_text: Option<Seq<char>>) -> Option<Seq<u8>> {
    match kind {
        TrieKind::Storage => match id_text {
            Some(t) => felt_text_of(t),
            None => None,
        },
        _ => Some(kind_identifier(kind)),
    }
}

pub open spec fn opt_text(t: Option<String>) -> Option<Seq<char>> {
    match t {
        Some(s) => Some(s@),
        None => None,
    }
}

/// The spec of the trie of `kind`; a storage trie needs the hex felt of its
/// contract, and fails without one or with one that does not parse.
pub fn build_spec(trie: TrieKind, identifier: Option<String>) -> (r: Result<TrieSpec, String>)
    ensures
        r is Ok <==> spec_identifier(trie, opt_text(identifier)) is Some,
        r matches Ok(s) ==> {
            &&& s.identifier@ == spec_identifier(trie, opt_text(identifier)).unwrap()
            &&& s.trie_cf@ == trie_column_name(trie)
            &&& s.flat_cf@ == flat_column_name(trie)
            &&& s.log_cf@ == log_column_name(trie)
        },
{
    let identifier = match trie {
        TrieKind::Storage => {
            let text = match identifier {
                Some(t) => t,
                None => return Err(<String as StringExecFns>::from_str("missing identifier")),
            };
            let felt = match parse_felt_hex(text.as_str()) {
                Ok(f) => f,
                Err(e) => return Err(e),
            };
            let bytes = felt.to_bytes_be();
            let mut v: Vec<u8> = Vec::new();
            let mut i: usize = 0;
            while i < 32
                invariant
                    i <= 32,
                    bytes@.len() == 32,
                    v@ == bytes@.subrange(0, i as int),
                decreases 32 - i,
            {
                v.push(bytes[i]);
                i = i + 1;
                assert(bytes@.subrange(0, i as int) == bytes@.subrange(0, i - 1).push(bytes@[i - 1]));
            }
            assert(bytes@.subrange(0, 32) =~= bytes@);
            v
        },
        _ => trie.identifier(),
    };
    Ok(
        TrieSpec {
            identifier,
            trie_cf: <String as StringExecFns>::from_str(trie.trie_column()),
            flat_cf: <String as StringExecFns>::from_str(trie.flat_column()),
            log_cf: <String as StringExecFns>::from_str(trie.log_column()),
        },
    )
}

impl TrieSpec {
    /// The store key of the node or leaf at `path`: the identifier, then the
    /// path's encoding.
    pub fn storage_key(&self, path: &PathBits) -> (r: Vec<u8>)
        requires
            path@.len() <= MAX_ENCODED_BITS,
        ensures
            r@ == self.identifier@ + path_encoding(path@),
    {
        let mut key = self.identifier.clone();
        assert(key@ =~= self.identifier@);
        let mut encoded = path.to_bytes();
        key.append(&mut encoded);
        key
    }
}

/// The required columns that a list of names lacks, among the first `n`.
pub open spec fn missing_among(names: Seq<Seq<char>>, n: int) -> Seq<Seq<char>>
    decreases n,
{
    if n <= 0 || n > required_column_names().len() {
        Seq::empty()
    } else if names.contains(required_column_names()[n - 1]) {
        missing_among(names, n - 1)
    } else {
        missing_among(names, n - 1).push(required_column_names()[n - 1])
    }
}

pub open spec fn string_views(v: Seq<String>) -> Seq<Seq<char>> {
    v.map_values(|s: String| s@)
}

/// The required columns, in their fixed order.
pub fn required_columns() -> (r: Vec<String>)
    ensures
        string_views(r@) == required_column_names(),
{
    let mut v: Vec<String> = Vec::new();
    v.push(<String as StringExecFns>::from_str(BONSAI_CONTRACT_FLAT));
    v.push(<String as StringExecFns>::from_str(BONSAI_CONTRACT_TRIE));
    v.push(<String as StringExecFns>::from_str(BONSAI_CONTRACT_LOG));
    v.push(<String as StringExecFns>::from_str(BONSAI_CONTRACT_STORAGE_FLAT));
    v.push(<String as StringExecFns>::from_str(BONSAI_CONTRACT_STORAGE_TRIE));
    v.push(<String as StringExecFns>::from_str(BONSAI_CONTRACT_STORAGE_LOG));
    v.push(<String as StringExecFns>::from_str(BONSAI_CLASS_FLAT));
    v.push(<String as StringExecFns>::from_str(BONSAI_CLASS_TRIE));
    v.push(<String as StringExecFns>::from_str(BONSAI_CLASS_LOG));
    assert(string_views(v@) =~= required_column_names());
    v
}

/// The required columns that a store's column list lacks, in the fixed order;
/// opening the store fails unless this is empty.
pub fn missing_required_columns(names: &Vec<String>) -> (r: Vec<String>)
    ensures
        string_views(r@) == missing_among(string_views(names@), 9),
{
    let required = required_columns();
    let ghost have = string_views(names@);
    let mut missing: Vec<String> = Vec::new();
    assert(string_views(required@).len() == required@.len());
    let mut i: usize = 0;
    while i < required.len()
        invariant
            string_views(required@) == required_column_names(),
            required@.len() == 9,
            have == string_views(names@),
            i <= 9,
            string_views(missing@) == missing_among(have, i as int),
        decreases 9 - i,
    {
        let want = &required[i];
        assert(want@ == required_column_names()[i as int]);
        let mut found = false;
        let mut j: usize = 0;
        while j < names.len()
            invariant
                have == string_views(names@),
                have.len() == names@.len(),
                j <= names@.len(),
                found <==> exists|q: int| 0 <= q < j && have[q] == want@,
            decreases names@.len() - j,
        {
            assert(have[j as int] == names@[j as int]@);
            if names[j] == *want {
                found = true;
            }
            j = j + 1;
        }
        assert(found <==> have.contains(want@));
        if !found {
            missing.push(want.clone());
        }
        i = i + 1;
        assert(string_views(missing@) =~= missing_among(have, i as int));
    }
    missing
}

} // verus!
