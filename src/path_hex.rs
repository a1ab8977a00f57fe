use vstd::prelude::*;
use vstd::string::StringExecFns;

use crate::hex::{bytes_of_hex_pairs, bytes_to_hex, hex_to_bytes, is_hex_pairs, trimmed, without_0x};
use crate::path::{felt_key_bits, path_decoding, path_encoding, PathBits, MAX_ENCODED_BITS};
use crate::views::{path_hex_text, NodeView};

verus! {

/// The bytes of a hex text, or the single byte `0` (the empty path) when the
/// text is not an even number of hex digits.
pub open spec fn hex_bytes_or_root(text: Seq<char>) -> Seq<u8> {
    if is_hex_pairs(without_0x(trimmed(text))) {
        bytes_of_hex_pairs(without_0x(trimmed(text)))
    } else {
        seq![0u8]
    }
}

/// The path that a path-hex text names.
pub open spec fn hex_path_bits(text: Seq<char>) -> Seq<bool> {
    path_decoding(hex_bytes_or_root(text))
}

/// The 32 bytes of a felt given as bytes: left-padded with zeros when
/// shorter, its last 32 when longer.
pub open spec fn felt_width_bytes(b: Seq<u8>) -> Seq<u8> {
    if b.len() < 32 {
        Seq::new((32 - b.len()) as nat, |i: int| 0u8) + b
    } else {
        b.subrange(b.len() - 32, b.len() as int)
    }
}

/// The encoding of a list of bits.
pub fn encode_path_bits(bits: &Vec<bool>) -> (r: Vec<u8>)
    requires
        bits@.len() <= MAX_ENCODED_BITS,
    ensures
        r@ == path_encoding(bits@),
{
    PathBits::from_bits(bits).to_bytes()
}

/// The bits that an encoding decodes to.
pub fn decode_path_bits(encoded: &[u8]) -> (r: Vec<bool>)
    ensures
        r@ == path_decoding(encoded@),
{
    PathBits::from_encoded(encoded).to_bits()
}

fn path_of_hex(text: &str) -> (r: PathBits)
    ensures
        r@ == hex_path_bits(text@),
        r@.len() <= MAX_ENCODED_BITS,
{
    let bytes = match hex_to_bytes(text) {
        Some(b) => b,
        None => vec![0u8],
    };
    assert(bytes@ =~= hex_bytes_or_root(text@));
    PathBits::from_encoded(bytes.as_slice())
}

/// The path-hex of the child one bit below a path; `None` when the path
/// already has as many bits as an encoding can count.
pub fn append_bit_to_path(path_hex: &str, bit: bool) -> (r: Option<String>)
    ensures
        r is Some <==> hex_path_bits(path_hex@).len() < MAX_ENCODED_BITS,
        r matches Some(s) ==> s@ == path_hex_text(hex_path_bits(path_hex@).push(bit)),
{
    let path = path_of_hex(path_hex);
    if path.len() >= MAX_ENCODED_BITS {
        return None;
    }
    let next = path.with_bit(bit);
    Some(bytes_to_hex(next.to_bytes().as_slice()))
}

/// The path-hex of one path followed by another; `None` when together they
/// have more bits than an encoding can count.
pub fn concat_paths(left_hex: &str, right_hex: &str) -> (r: Option<String>)
    ensures
        r is Some <==> hex_path_bits(left_hex@).len() + hex_path_bits(right_hex@).len()
            <= MAX_ENCODED_BITS,
        r matches Some(s) ==> s@ == path_hex_text(hex_path_bits(left_hex@) + hex_path_bits(right_hex@)),
{
    let mut left = path_of_hex(left_hex);
    let right = path_of_hex(right_hex);
    if right.len() > MAX_ENCODED_BITS - left.len() {
        return None;
    }
    left.extend_from_bitslice(&right);
    Some(bytes_to_hex(left.to_bytes().as_slice()))
}

/// The 251-bit key path of a felt given in hex (zero when the text is not
/// an even number of hex digits once trimmed).
pub fn felt_hex_to_bits(hex: &str) -> (r: Vec<bool>)
    ensures
        r@ == felt_key_bits(
            felt_width_bytes(
                if is_hex_pairs(without_0x(trimmed(hex@))) {
                    bytes_of_hex_pairs(without_0x(trimmed(hex@)))
                } else {
                    Seq::empty()
                },
            ),
        ),
{
    let bytes: Vec<u8> = match hex_to_bytes(hex) {
        Some(b) => b,
        None => Vec::new(),
    };
    let n = bytes.len();
    let ghost wide = felt_width_bytes(bytes@);
    let mut raw = [0u8; 32];
    let mut i: usize = 0;
    while i < 32
        invariant
            n == bytes@.len(),
            wide == felt_width_bytes(bytes@),
            i <= 32,
            raw@.len() == 32,
            forall|j: int| 0 <= j < i ==> raw@[j] == wide[j],
            forall|j: int| i <= j < 32 ==> raw@[j] == 0u8,
        decreases 32 - i,
    {
        if n < 32 {
            if i >= 32 - n {
                raw[i] = bytes[i - (32 - n)];
            }
        } else {
            raw[i] = bytes[n - 32 + i];
        }
        i = i + 1;
    }
    assert(raw@ =~= wide);
    let ghost target = felt_key_bits(wide);
    let mut out: Vec<bool> = Vec::new();
    let mut k: usize = 0;
    while k < 251
        invariant
            raw@ == wide,
            raw@.len() == 32,
            target == felt_key_bits(wide),
            k <= 251,
            out@ == target.subrange(0, k as int),
        decreases 251 - k,
    {
        let p = k + 5;
        out.push((raw[p / 8] >> (7 - (p % 8)) as u8) & 1u8 == 1u8);
        k = k + 1;
        assert(target.subrange(0, k as int) == target.subrange(0, k - 1).push(target[k - 1]));
    }
    assert(target.subrange(0, 251) =~= target);
    out
}

/// The child paths of a shown node, each with its label: `L` and `R` below
/// a binary node, `C` past an edge's segment; children whose path would
/// not fit an encoding are left out.
pub fn child_paths(path: &str, node: &NodeView) -> (r: Vec<(String, String)>)
    ensures
        node.kind@ == "binary"@ ==> r@.len() <= 2 && forall|k: int|
            0 <= k < r@.len() ==> (#[trigger] r@[k]).0@ == path_hex_text(
                hex_path_bits(path@).push(r@[k].1@ == "R"@),
            ),
        node.kind@ == "binary"@ && hex_path_bits(path@).len() < MAX_ENCODED_BITS ==> r@.len() == 2
            && r@[0].1@ == "L"@ && r@[1].1@ == "R"@,
        node.kind@ != "binary"@ && node.path_hex is None ==> r@.len() == 0,
        node.kind@ != "binary"@ && node.path_hex is Some && hex_path_bits(path@).len()
            + hex_path_bits(node.path_hex.unwrap()@).len() <= MAX_ENCODED_BITS ==> r@.len() == 1,
        node.kind@ != "binary"@ && node.path_hex is Some ==> r@.len() <= 1 && forall|k: int|
            0 <= k < r@.len() ==> (#[trigger] r@[k]).1@ == "C"@ && r@[k].0@ == path_hex_text(
                hex_path_bits(path@) + hex_path_bits(node.path_hex.unwrap()@),
            ),
{
    let mut out: Vec<(String, String)> = Vec::new();
    let binary = <String as StringExecFns>::from_str("binary");
    if node.kind == binary {
        proof {
            reveal_strlit("R");
            reveal_strlit("L");
        }
        assert("L"@[0] == 'L' && "R"@[0] == 'R');
        assert("L"@ != "R"@);
        if let Some(left) = append_bit_to_path(path, false) {
            out.push((left, <String as StringExecFns>::from_str("L")));
        }
        if let Some(right) = append_bit_to_path(path, true) {
            out.push((right, <String as StringExecFns>::from_str("R")));
        }
    } else if let Some(edge_hex) = &node.path_hex {
        if let Some(child) = concat_paths(path, edge_hex.as_str()) {
            out.push((child, <String as StringExecFns>::from_str("C")));
        }
    }
    out
}

} // verus!
