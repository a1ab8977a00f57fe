use vstd::prelude::*;

use crate::bitbuf::{buf_bits, BitBuf};
use crate::felt::{lemma_felt_len, Felt};

verus! {

/// The most bits that the one-byte length of the path encoding can count.
pub const MAX_ENCODED_BITS: usize = 255;

/// Bit `j` (0 = most significant) of a byte.
pub open spec fn byte_bit(b: u8, j: int) -> bool {
    (b >> ((7 - j) as u8)) & 1u8 == 1u8
}

/// Bit `i` of a byte string read most-significant-bit first.
pub open spec fn bytes_bit(bytes: Seq<u8>, i: int) -> bool {
    byte_bit(bytes[i / 8], i % 8)
}

/// Bit `i` of a path, with every position outside the path reading as zero.
pub open spec fn bit_or_zero(p: Seq<bool>, i: int) -> bool {
    0 <= i < p.len() && p[i]
}

/// The byte mask of bit `j` when it is set.
pub open spec fn bit_mask(set: bool, j: int) -> u8 {
    if set {
        0x80u8 >> (j as u8)
    } else {
        0u8
    }
}

/// The byte whose first `j` bits are bits `start .. start + j` of `p`, the rest zero.
pub open spec fn pack_bits(p: Seq<bool>, start: int, j: nat) -> u8
    decreases j,
{
    if j == 0 {
        0u8
    } else {
        pack_bits(p, start, (j - 1) as nat) | bit_mask(
            bit_or_zero(p, start + j - 1),
            j - 1,
        )
    }
}

/// Content byte `k` of a path's encoding: eight bits, zero past the end.
pub open spec fn content_byte(p: Seq<bool>, k: int) -> u8 {
    pack_bits(p, 8 * k, 8)
}

/// The number of content bytes that hold `n` bits.
pub open spec fn content_len(n: nat) -> nat {
    (n + 7) / 8
}

/// The on-disk encoding of a path: its length byte, then its bits packed
/// most-significant-bit first with the last byte zero-padded.
pub open spec fn path_encoding(p: Seq<bool>) -> Seq<u8> {
    seq![p.len() as u8] + Seq::new(content_len(p.len()), |k: int| content_byte(p, k))
}

/// The path that an encoding decodes to: as many bits as the length byte
/// counts and the content bytes hold, padding bits ignored.
pub open spec fn path_decoding(bytes: Seq<u8>) -> Seq<bool> {
    if bytes.len() == 0 {
        Seq::empty()
    } else {
        let held = 8 * (bytes.len() - 1);
        let n = if (bytes[0] as int) < held {
            bytes[0] as int
        } else {
            held
        };
        Seq::new(n as nat, |i: int| bytes_bit(bytes.drop_first(), i))
    }
}

/// Bits `5 .. 256` of a 32-byte big-endian value: the 251-bit key of a felt.
pub open spec fn felt_key_bits(bytes: Seq<u8>) -> Seq<bool> {
    Seq::new(251, |k: int| bytes_bit(bytes, k + 5))
}

/// The 32 bytes whose low `p.len()` bits are `p`, the rest zero.
pub open spec fn right_aligned_bytes(p: Seq<bool>) -> Seq<u8> {
    let padded = Seq::new((256 - p.len()) as nat, |i: int| false) + p;
    Seq::new(32, |m: int| content_byte(padded, m))
}

proof fn lemma_pack_eight(b0: bool, b1: bool, b2: bool, b3: bool, b4: bool, b5: bool, b6: bool, b7: bool)
    ensures
        ({
            let x = 0u8 | bit_mask(b0, 0) | bit_mask(b1, 1) | bit_mask(b2, 2) | bit_mask(b3, 3)
                | bit_mask(b4, 4) | bit_mask(b5, 5) | bit_mask(b6, 6) | bit_mask(b7, 7);
            &&& byte_bit(x, 0) == b0
            &&& byte_bit(x, 1) == b1
            &&& byte_bit(x, 2) == b2
            &&& byte_bit(x, 3) == b3
            &&& byte_bit(x, 4) == b4
            &&& byte_bit(x, 5) == b5
            &&& byte_bit(x, 6) == b6
            &&& byte_bit(x, 7) == b7
        }),
{
    assert(({
        let x = 0u8 | bit_mask(b0, 0) | bit_mask(b1, 1) | bit_mask(b2, 2) | bit_mask(b3, 3)
            | bit_mask(b4, 4) | bit_mask(b5, 5) | bit_mask(b6, 6) | bit_mask(b7, 7);
        &&& byte_bit(x, 0) == b0
        &&& byte_bit(x, 1) == b1
        &&& byte_bit(x, 2) == b2
        &&& byte_bit(x, 3) == b3
        &&& byte_bit(x, 4) == b4
        &&& byte_bit(x, 5) == b5
        &&& byte_bit(x, 6) == b6
        &&& byte_bit(x, 7) == b7
    })) by (bit_vector);
}

proof fn lemma_unpack_eight(x: u8)
    by (bit_vector)
    ensures
        x == 0u8 | bit_mask(byte_bit(x, 0), 0) | bit_mask(byte_bit(x, 1), 1) | bit_mask(
            byte_bit(x, 2),
            2,
        ) | bit_mask(byte_bit(x, 3), 3) | bit_mask(byte_bit(x, 4), 4) | bit_mask(byte_bit(x, 5), 5)
            | bit_mask(byte_bit(x, 6), 6) | bit_mask(byte_bit(x, 7), 7),
        x & 7 == 0u8 | bit_mask(false, 0) | bit_mask(false, 1) | bit_mask(false, 2) | bit_mask(
            false,
            3,
        ) | bit_mask(false, 4) | bit_mask(byte_bit(x, 5), 5) | bit_mask(byte_bit(x, 6), 6)
            | bit_mask(byte_bit(x, 7), 7),
{
}

/// A byte whose eight bits are bits `start .. start + 8` of `p` is their packing.
pub proof fn lemma_pack_bits_of_byte(p: Seq<bool>, start: int, x: u8)
    requires
        forall|j: int| 0 <= j < 8 ==> bit_or_zero(p, start + j) == byte_bit(x, j),
    ensures
        pack_bits(p, start, 8) == x,
{
    reveal_with_fuel(pack_bits, 9);
    assert(bit_or_zero(p, start + 0) == byte_bit(x, 0));
    assert(bit_or_zero(p, start + 1) == byte_bit(x, 1));
    assert(bit_or_zero(p, start + 2) == byte_bit(x, 2));
    assert(bit_or_zero(p, start + 3) == byte_bit(x, 3));
    assert(bit_or_zero(p, start + 4) == byte_bit(x, 4));
    assert(bit_or_zero(p, start + 5) == byte_bit(x, 5));
    assert(bit_or_zero(p, start + 6) == byte_bit(x, 6));
    assert(bit_or_zero(p, start + 7) == byte_bit(x, 7));
    lemma_unpack_eight(x);
}

/// Packing eight bits and reading them back gives the same bits.
pub proof fn lemma_pack_bits_read(p: Seq<bool>, start: int, j: int)
    requires
        0 <= j < 8,
    ensures
        byte_bit(pack_bits(p, start, 8), j) == bit_or_zero(p, start + j),
{
    reveal_with_fuel(pack_bits, 9);
    lemma_pack_eight(
        bit_or_zero(p, start),
        bit_or_zero(p, start + 1),
        bit_or_zero(p, start + 2),
        bit_or_zero(p, start + 3),
        bit_or_zero(p, start + 4),
        bit_or_zero(p, start + 5),
        bit_or_zero(p, start + 6),
        bit_or_zero(p, start + 7),
    );
}


/// A bit-path: the ordered bits from the root of a trie downward.
#[derive(Debug)]
pub struct PathBits {
    bits: BitBuf,
}

impl View for PathBits {
    type V = Seq<bool>;

    closed spec fn view(&self) -> Seq<bool> {
        buf_bits(self.bits)
    }
}

impl Clone for PathBits {
    fn clone(&self) -> (r: Self)
        ensures
            r@ == self@,
    {
        PathBits { bits: self.bits.duplicate() }
    }
}

impl PartialEq for PathBits {
    fn eq(&self, other: &PathBits) -> (r: bool) {
        let n = self.len();
        if n != other.len() {
            return false;
        }
        let mut i: usize = 0;
        while i < n
            invariant
                n == self@.len() == other@.len(),
                i <= n,
                forall|j: int| 0 <= j < i ==> self@[j] == other@[j],
            decreases n - i,
        {
            if self.get(i) != other.get(i) {
                return false;
            }
            i = i + 1;
        }
        assert(self@ =~= other@);
        true
    }
}

impl vstd::std_specs::cmp::PartialEqSpecImpl for PathBits {
    open spec fn obeys_eq_spec() -> bool {
        true
    }

    open spec fn eq_spec(&self, other: &PathBits) -> bool {
        self@ == other@
    }
}

impl Eq for PathBits {
}

impl PathBits {
    /// The empty path.
    pub fn default() -> (r: PathBits)
        ensures
            r@ == Seq::<bool>::empty(),
    {
        PathBits { bits: BitBuf::new() }
    }

    pub fn len(&self) -> (r: usize)
        ensures
            r == self@.len(),
    {
        self.bits.len()
    }

    pub fn is_empty(&self) -> (r: bool)
        ensures
            r == (self@.len() == 0),
    {
        self.bits.len() == 0
    }

    /// The bit at position `i`.
    pub fn get(&self, i: usize) -> (r: bool)
        requires
            i < self@.len(),
        ensures
            r == self@[i as int],
    {
        self.bits.bit(i)
    }

    /// Appends one bit.
    pub fn push(&mut self, bit: bool)
        requires
            old(self)@.len() < MAX_ENCODED_BITS,
        ensures
            final(self)@ == old(self)@.push(bit),
    {
        self.bits.push(bit);
    }

    /// Appends every bit of `other`, in order.
    pub fn extend_from_bitslice(&mut self, other: &PathBits)
        requires
            old(self)@.len() + other@.len() <= MAX_ENCODED_BITS,
        ensures
            final(self)@ == old(self)@ + other@,
    {
        let ghost start = self@;
        let n = other.len();
        let mut i: usize = 0;
        while i < n
            invariant
                n == other@.len(),
                i <= n,
                start.len() + n <= MAX_ENCODED_BITS,
                self@ == start + other@.subrange(0, i as int),
            decreases n - i,
        {
            let b = other.get(i);
            self.bits.push(b);
            i = i + 1;
            assert(other@.subrange(0, i as int) == other@.subrange(0, i - 1).push(b));
        }
        assert(other@.subrange(0, n as int) == other@);
    }

    /// A new path: this one followed by `bit`.
    pub fn with_bit(&self, bit: bool) -> (r: PathBits)
        requires
            self@.len() < MAX_ENCODED_BITS,
        ensures
            r@ == self@.push(bit),
    {
        let mut next = self.clone();
        next.push(bit);
        next
    }

    /// The path built from a list of bits.
    pub fn from_bits(bits: &Vec<bool>) -> (r: PathBits)
        requires
            bits@.len() <= MAX_ENCODED_BITS,
        ensures
            r@ == bits@,
    {
        let mut out = PathBits::default();
        let mut i: usize = 0;
        while i < bits.len()
            invariant
                i <= bits@.len() <= MAX_ENCODED_BITS,
                out@ == bits@.subrange(0, i as int),
            decreases bits@.len() - i,
        {
            out.push(bits[i]);
            i = i + 1;
            assert(bits@.subrange(0, i as int) == bits@.subrange(0, i - 1).push(bits@[i - 1]));
        }
        assert(bits@.subrange(0, i as int) == bits@);
        out
    }

    /// The bits of the path as a list.
    pub fn to_bits(&self) -> (r: Vec<bool>)
        ensures
            r@ == self@,
    {
        let n = self.len();
        let mut out: Vec<bool> = Vec::new();
        let mut i: usize = 0;
        while i < n
            invariant
                n == self@.len(),
                i <= n,
                out@ == self@.subrange(0, i as int),
            decreases n - i,
        {
            out.push(self.get(i));
            i = i + 1;
            assert(self@.subrange(0, i as int) == self@.subrange(0, i - 1).push(self@[i - 1]));
        }
        assert(self@.subrange(0, n as int) == self@);
        out
    }

    /// The on-disk encoding: a length byte, then the bits packed
    /// most-significant-bit first, the last byte zero-padded.
    pub fn to_bytes(&self) -> (r: Vec<u8>)
        requires
            self@.len() <= MAX_ENCODED_BITS,
        ensures
            r@ == path_encoding(self@),
    {
        let n = self.len();
        let nbytes = (n + 7) / 8;
        let mut out: Vec<u8> = Vec::new();
        out.push(n as u8);
        let mut k: usize = 0;
        while k < nbytes
            invariant
                n == self@.len() <= MAX_ENCODED_BITS,
                nbytes == content_len(n as nat),
                k <= nbytes,
                out@.len() == 1 + k,
                out@[0] == n as u8,
                forall|m: int| 0 <= m < k ==> out@[1 + m] == content_byte(self@, m),
            decreases nbytes - k,
        {
            let mut acc: u8 = 0;
            let mut j: usize = 0;
            while j < 8
                invariant
                    n == self@.len() <= MAX_ENCODED_BITS,
                    k < nbytes,
                    nbytes == content_len(n as nat),
                    j <= 8,
                    acc == pack_bits(self@, 8 * k, j as nat),
                decreases 8 - j,
            {
                let i = 8 * k + j;
                let set = i < n && self.get(i);
                let mask: u8 = if set {
                    0x80u8 >> (j as u8)
                } else {
                    0u8
                };
                acc = acc | mask;
                j = j + 1;
            }
            out.push(acc);
            k = k + 1;
        }
        assert(out@ =~= path_encoding(self@));
        out
    }

    /// Decodes a path from its encoding. An empty input gives the empty path;
    /// bits past the length byte, or past the end of the input, are dropped.
    pub fn from_encoded(bytes: &[u8]) -> (r: PathBits)
        ensures
            r@ == path_decoding(bytes@),
            r@.len() <= MAX_ENCODED_BITS,
    {
        let mut out = PathBits::default();
        if bytes.len() == 0 {
            return out;
        }
        let held: usize = if bytes.len() - 1 < 32 {
            8 * (bytes.len() - 1)
        } else {
            256
        };
        let n: usize = if (bytes[0] as usize) < held {
            bytes[0] as usize
        } else {
            held
        };
        let ghost target = path_decoding(bytes@);
        assert(n == target.len());
        let mut i: usize = 0;
        while i < n
            invariant
                n == target.len() <= MAX_ENCODED_BITS,
                target == path_decoding(bytes@),
                bytes@.len() > 0,
                n <= 8 * (bytes@.len() - 1),
                i <= n,
                out@ == target.subrange(0, i as int),
            decreases n - i,
        {
            let byte = bytes[1 + i / 8];
            let bit = (byte >> (7 - (i % 8)) as u8) & 1u8 == 1u8;
            assert(bit == target[i as int]);
            out.push(bit);
            i = i + 1;
            assert(target.subrange(0, i as int) == target.subrange(0, i - 1).push(target[i - 1]));
        }
        assert(target.subrange(0, n as int) == target);
        out
    }
}


/// Decoding the encoding of a path gives the path back.
pub proof fn lemma_path_encoding_round_trip(p: Seq<bool>)
    requires
        p.len() <= 251,
    ensures
        path_decoding(path_encoding(p)) == p,
{
    let e = path_encoding(p);
    let rest = e.drop_first();
    assert(rest =~= Seq::new(content_len(p.len()), |k: int| content_byte(p, k)));
    let d = path_decoding(e);
    assert(d.len() == p.len());
    assert forall|i: int| 0 <= i < p.len() implies d[i] == p[i] by {
        let k = i / 8;
        let j = i % 8;
        lemma_pack_bits_read(p, 8 * k, j);
        assert(8 * k + j == i);
    }
    assert(d =~= p);
}

/// Decoding reads only the bytes that the encoding holds: whatever follows
/// an encoded path is left alone.
pub proof fn lemma_path_decoding_ignores_rest(p: Seq<bool>, rest: Seq<u8>)
    requires
        p.len() <= 251,
    ensures
        path_decoding(path_encoding(p) + rest) == p,
{
    let e = path_encoding(p);
    let b = e + rest;
    lemma_path_encoding_round_trip(p);
    assert(b[0] == e[0]);
    let d = path_decoding(b);
    assert(d.len() == p.len());
    assert forall|i: int| 0 <= i < p.len() implies d[i] == p[i] by {
        let k = i / 8;
        assert(b.drop_first()[k] == e.drop_first()[k]);
        assert(path_decoding(e)[i] == p[i]);
    }
    assert(d =~= p);
}

/// The 251-bit key of a felt: its big-endian bits without the top five.
pub fn felt_to_path(felt: &Felt) -> (r: PathBits)
    ensures
        r@ == felt_key_bits(felt@),
{
    let bytes = felt.to_bytes_be();
    proof {
        lemma_felt_len(*felt);
    }
    let ghost target = felt_key_bits(felt@);
    let mut out = PathBits::default();
    let mut k: usize = 0;
    while k < 251
        invariant
            bytes@ == felt@,
            bytes@.len() == 32,
            target == felt_key_bits(felt@),
            k <= 251,
            out@ == target.subrange(0, k as int),
        decreases 251 - k,
    {
        let i = k + 5;
        let bit = (bytes[i / 8] >> (7 - (i % 8)) as u8) & 1u8 == 1u8;
        assert(bit == target[k as int]);
        out.push(bit);
        k = k + 1;
        assert(target.subrange(0, k as int) == target.subrange(0, k - 1).push(target[k - 1]));
    }
    assert(target.subrange(0, 251) =~= target);
    out
}

/// The felt whose low bits are the path, right-aligned, the rest zero.
pub fn path_to_felt(path: &PathBits) -> (r: Felt)
    requires
        path@.len() <= 251,
    ensures
        r@ == right_aligned_bytes(path@),
{
    let n = path.len();
    let pad: usize = 256 - n;
    let ghost padded = Seq::new(pad as nat, |i: int| false) + path@;
    let ghost target = right_aligned_bytes(path@);
    let mut bytes = [0u8; 32];
    let mut m: usize = 0;
    while m < 32
        invariant
            n == path@.len() <= 251,
            pad == 256 - n,
            padded == Seq::new(pad as nat, |i: int| false) + path@,
            target == right_aligned_bytes(path@),
            m <= 32,
            bytes@.len() == 32,
            forall|q: int| 0 <= q < m ==> bytes@[q] == target[q],
        decreases 32 - m,
    {
        let mut acc: u8 = 0;
        let mut j: usize = 0;
        while j < 8
            invariant
                n == path@.len() <= 251,
                pad == 256 - n,
                padded == Seq::new(pad as nat, |i: int| false) + path@,
                m < 32,
                j <= 8,
                acc == pack_bits(padded, 8 * m, j as nat),
            decreases 8 - j,
        {
            let i = 8 * m + j;
            let set = i >= pad && path.get(i - pad);
            assert(set == bit_or_zero(padded, i as int));
            let mask: u8 = if set {
                0x80u8 >> (j as u8)
            } else {
                0u8
            };
            acc = acc | mask;
            j = j + 1;
        }
        bytes[m] = acc;
        m = m + 1;
    }
    assert(bytes@ =~= target);
    Felt::from_reduced_bytes(bytes)
}

/// Turning a felt into its key path and back clears the felt's top five bits
/// and keeps every other bit.
pub proof fn lemma_felt_path_round_trip(f: Felt)
    ensures
        right_aligned_bytes(felt_key_bits(f@)) == f@.update(0, f@[0] & 7),
{
    lemma_felt_len(f);
    let b = f@;
    let key = felt_key_bits(b);
    let padded = Seq::new(5, |i: int| false) + key;
    assert(Seq::new((256 - key.len()) as nat, |i: int| false) == Seq::new(5, |i: int| false));
    let r = right_aligned_bytes(key);
    assert forall|m: int| 0 <= m < 32 implies r[m] == b.update(0, b[0] & 7)[m] by {
        if m == 0 {
            assert forall|j: int| 0 <= j < 8 implies bit_or_zero(padded, 8 * m + j) == byte_bit(
                b[0] & 7,
                j,
            ) by {
                let x = b[0];
                assert(byte_bit(x & 7, 0) == false && byte_bit(x & 7, 1) == false && byte_bit(x & 7, 2)
                    == false && byte_bit(x & 7, 3) == false && byte_bit(x & 7, 4) == false
                    && byte_bit(x & 7, 5) == byte_bit(x, 5) && byte_bit(x & 7, 6) == byte_bit(x, 6)
                    && byte_bit(x & 7, 7) == byte_bit(x, 7)) by (bit_vector);
                if j >= 5 {
                    assert(padded[j] == key[j - 5]);
                    assert(bytes_bit(b, j) == byte_bit(x, j));
                }
            }
            lemma_pack_bits_of_byte(padded, 0, b[0] & 7);
        } else {
            assert forall|j: int| 0 <= j < 8 implies bit_or_zero(padded, 8 * m + j) == byte_bit(
                b[m],
                j,
            ) by {
                let i = 8 * m + j;
                assert(padded[i] == key[i - 5]);
                assert(i / 8 == m && i % 8 == j);
            }
            lemma_pack_bits_of_byte(padded, 8 * m, b[m]);
        }
    }
    assert(r =~= b.update(0, b[0] & 7));
}

} // verus!
