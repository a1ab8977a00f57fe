//! Read-only inspection of persisted Bonsai tries: the path and node codecs,
//! the storage key schema, inclusion proofs and the per-block change log.

pub mod bitbuf;
pub mod felt;
pub mod path;
pub mod node;
pub mod trie;
pub mod inclusion;
pub mod diff;
pub mod hex;
pub mod views;
pub mod path_hex;
