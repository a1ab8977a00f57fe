use vstd::prelude::*;
use vstd::string::StringSliceAdditionalSpecFns;

verus! {

/// The prime of the Stark field: 2^251 + 17 * 2^192 + 1.
pub open spec fn stark_prime() -> nat {
    0x800000000000011000000000000000000000000000000000000000000000001nat
}

/// The number that a byte string denotes, read big-endian.
pub open spec fn be_value(s: Seq<u8>) -> nat
    decreases s.len(),
{
    if s.len() == 0 {
        0
    } else {
        be_value(s.drop_last()) * 256 + s.last() as nat
    }
}

/// The `len` low bytes of `n`, big-endian.
pub open spec fn be_bytes(n: nat, len: nat) -> Seq<u8>
    decreases len,
{
    if len == 0 {
        Seq::empty()
    } else {
        be_bytes(n / 256, (len - 1) as nat).push((n % 256) as u8)
    }
}

/// `256^len`: the numbers that `len` bytes can hold.
pub open spec fn byte_span(len: nat) -> nat
    decreases len,
{
    if len == 0 {
        1
    } else {
        256 * byte_span((len - 1) as nat)
    }
}

/// Reading back the `len` big-endian bytes of a number that fits gives the number.
pub proof fn lemma_be_round_trip(n: nat, len: nat)
    requires
        n < byte_span(len),
    ensures
        be_bytes(n, len).len() == len,
        be_value(be_bytes(n, len)) == n,
    decreases len,
{
    if len > 0 {
        let s = be_bytes(n, len);
        let q = n / 256;
        assert(q < byte_span((len - 1) as nat)) by (nonlinear_arith)
            requires
                n < 256 * byte_span((len - 1) as nat),
                q == n / 256,
        ;
        lemma_be_round_trip(q, (len - 1) as nat);
        assert(s.drop_last() == be_bytes(q, (len - 1) as nat));
        assert(q * 256 + n % 256 == n) by (nonlinear_arith)
            requires
                q == n / 256,
        ;
    }
}

/// The prime is below `256^32`, so every reduced value fits in 32 bytes.
pub proof fn lemma_prime_fits()
    ensures
        stark_prime() < byte_span(32),
{
    reveal_with_fuel(byte_span, 33);
}

/// Two reduced values with the same 32 bytes are equal.
pub proof fn lemma_felt_bytes_injective(a: nat, b: nat)
    requires
        felt_bytes_of(a) == felt_bytes_of(b),
    ensures
        a % stark_prime() == b % stark_prime(),
{
    lemma_prime_fits();
    lemma_be_round_trip(a % stark_prime(), 32);
    lemma_be_round_trip(b % stark_prime(), 32);
}

/// The canonical 32-byte form of the field element `n mod p`.
pub open spec fn felt_bytes_of(n: nat) -> Seq<u8> {
    be_bytes(n % stark_prime(), 32)
}

/// Whether a byte is an ASCII hexadecimal digit, in either case.
pub open spec fn is_hex_byte(c: u8) -> bool {
    (0x30 <= c <= 0x39) || (0x41 <= c <= 0x46) || (0x61 <= c <= 0x66)
}

pub open spec fn hex_byte_value(c: u8) -> nat {
    if c <= 0x39 {
        (c - 0x30) as nat
    } else if c <= 0x46 {
        (c - 0x41 + 10) as nat
    } else {
        (c - 0x61 + 10) as nat
    }
}

/// The number that a string of hexadecimal digits denotes.
pub open spec fn hex_value(s: Seq<u8>) -> nat
    decreases s.len(),
{
    if s.len() == 0 {
        0
    } else {
        (hex_value(s.drop_last()) * 16 + hex_byte_value(s.last())) as nat
    }
}

/// The digits that the field's hex parser reads: what follows a leading
/// `0x` when more follows it, else the whole text.
pub open spec fn hex_body(s: Seq<u8>) -> Seq<u8> {
    if s.len() > 2 && s[0] == 0x30 && s[1] == 0x78 {
        s.subrange(2, s.len() as int)
    } else {
        s
    }
}

/// Whether the field's hex parser accepts a text: one to 64 hex digits,
/// after an optional `0x`.
pub open spec fn hex_accepted(s: Seq<u8>) -> bool {
    let d = hex_body(s);
    &&& 1 <= d.len() <= 64
    &&& forall|i: int| 0 <= i < d.len() ==> is_hex_byte(#[trigger] d[i])
}

/// The lowercase hexadecimal digits.
pub open spec fn lower_hex_digit(d: nat) -> char {
    seq!['0', '1', '2', '3', '4', '5', '6', '7', '8', '9', 'a', 'b', 'c', 'd', 'e', 'f'][d as int]
}

/// The shortest lowercase hexadecimal spelling of `n` (`0` for zero).
pub open spec fn hex_text(n: nat) -> Seq<char>
    decreases n,
{
    if n < 16 {
        seq![lower_hex_digit(n)]
    } else {
        hex_text(n / 16).push(lower_hex_digit(n % 16))
    }
}

/// The display text of a felt: `0x` and the shortest lowercase hex digits
/// of its reduced value.
pub open spec fn felt_text(f: Seq<u8>) -> Seq<char> {
    seq!['0', 'x'] + hex_text(be_value(f) % stark_prime())
}

/// The name of the Pedersen hash of two field elements, given by their bytes.
pub uninterp spec fn pedersen_of(a: Seq<u8>, b: Seq<u8>) -> Seq<u8>;

/// The name of the Poseidon hash of two field elements, given by their bytes.
pub uninterp spec fn poseidon_of(a: Seq<u8>, b: Seq<u8>) -> Seq<u8>;

/// A field element of the Stark field, held as its 32 big-endian bytes.
#[derive(Clone, Copy, Debug)]
pub struct Felt {
    bytes: [u8; 32],
}

impl View for Felt {
    type V = Seq<u8>;

    closed spec fn view(&self) -> Seq<u8> {
        self.bytes@
    }
}

impl PartialEq for Felt {
    fn eq(&self, other: &Felt) -> (r: bool) {
        let mut i: usize = 0;
        while i < 32
            invariant
                i <= 32,
                self@.len() == 32,
                other@.len() == 32,
                forall|j: int| 0 <= j < i ==> self@[j] == other@[j],
            decreases 32 - i,
        {
            if self.bytes[i] != other.bytes[i] {
                return false;
            }
            i = i + 1;
        }
        assert(self@ =~= other@);
        true
    }
}

impl vstd::std_specs::cmp::PartialEqSpecImpl for Felt {
    open spec fn obeys_eq_spec() -> bool {
        true
    }

    open spec fn eq_spec(&self, other: &Felt) -> bool {
        self@ == other@
    }
}

impl Eq for Felt {
}

/// Relies on starknet-types-core's `Felt::from_bytes_be`, which reads the
/// bytes big-endian and reduces modulo the prime, and `Felt::to_bytes_be`,
/// which gives the 32 big-endian bytes of the reduced value.
#[verifier::external_body]
fn reduce_be(bytes: &[u8; 32]) -> (r: [u8; 32])
    ensures
        r@ == felt_bytes_of(be_value(bytes@)),
{
    starknet_types_core::felt::Felt::from_bytes_be(bytes).to_bytes_be()
}

/// Relies on starknet-types-core's `Pedersen::hash` of two felts.
#[verifier::external_body]
fn pedersen_hash(a: &Felt, b: &Felt) -> (r: Felt)
    ensures
        r@ == pedersen_of(a@, b@),
{
    let x = starknet_types_core::felt::Felt::from_bytes_be(&a.bytes);
    let y = starknet_types_core::felt::Felt::from_bytes_be(&b.bytes);
    Felt { bytes: <starknet_types_core::hash::Pedersen as starknet_types_core::hash::StarkHash>::hash(&x, &y).to_bytes_be() }
}

/// Relies on starknet-types-core's `Poseidon::hash` of two felts.
#[verifier::external_body]
fn poseidon_hash(a: &Felt, b: &Felt) -> (r: Felt)
    ensures
        r@ == poseidon_of(a@, b@),
{
    let x = starknet_types_core::felt::Felt::from_bytes_be(&a.bytes);
    let y = starknet_types_core::felt::Felt::from_bytes_be(&b.bytes);
    Felt { bytes: <starknet_types_core::hash::Poseidon as starknet_types_core::hash::StarkHash>::hash(&x, &y).to_bytes_be() }
}

/// Relies on starknet-types-core's `Add` for `Felt`: addition modulo the prime.
#[verifier::external_body]
fn field_add(a: &Felt, b: &Felt) -> (r: Felt)
    ensures
        r@ == felt_bytes_of(be_value(a@) + be_value(b@)),
{
    let x = starknet_types_core::felt::Felt::from_bytes_be(&a.bytes);
    let y = starknet_types_core::felt::Felt::from_bytes_be(&b.bytes);
    Felt { bytes: (x + y).to_bytes_be() }
}

/// Relies on starknet-types-core's `Felt::from_hex`: one to 64 hex digits of
/// either case after an optional `0x`, read modulo the prime; any other text
/// is refused.
#[verifier::external_body]
fn field_from_hex(text: &str) -> (r: Option<Felt>)
    ensures
        r.is_some() == hex_accepted(text.spec_bytes()),
        r.is_some() ==> r.unwrap()@ == felt_bytes_of(hex_value(hex_body(text.spec_bytes()))),
{
    match starknet_types_core::felt::Felt::from_hex(text) {
        Ok(f) => Some(Felt { bytes: f.to_bytes_be() }),
        Err(_) => None,
    }
}

/// Relies on starknet-types-core's `LowerHex` for `Felt` in its alternate
/// form: `0x` and the shortest lowercase digits of the reduced value.
#[verifier::external_body]
fn field_lower_hex(f: &Felt) -> (r: String)
    ensures
        r@ == felt_text(f@),
{
    format!("{:#x}", starknet_types_core::felt::Felt::from_bytes_be(&f.bytes))
}

/// A felt's bytes are always 32.
pub broadcast proof fn lemma_felt_len(f: Felt)
    ensures
        #[trigger] f@.len() == 32,
{
}

/// Relies on starknet-types-core's `From<u64>` for `Felt`: the element with that value.
#[verifier::external_body]
fn field_from_u64(x: u64) -> (r: Felt)
    ensures
        r@ == felt_bytes_of(x as nat),
{
    Felt { bytes: starknet_types_core::felt::Felt::from(x).to_bytes_be() }
}

impl Felt {
    /// The element with value `x`.
    pub fn from_u64(x: u64) -> (r: Felt)
        ensures
            r@ == felt_bytes_of(x as nat),
    {
        field_from_u64(x)
    }

    /// The element whose big-endian bytes are `bytes`, which the caller
    /// knows to denote a number below the prime.
    pub(crate) fn from_reduced_bytes(bytes: [u8; 32]) -> (r: Felt)
        ensures
            r@ == bytes@,
    {
        Felt { bytes }
    }

    /// The field element `0`.
    pub fn zero() -> (r: Felt)
        ensures
            r@ == Seq::new(32, |i: int| 0u8),
    {
        let r = Felt { bytes: [0u8; 32] };
        assert(r@ =~= Seq::new(32, |i: int| 0u8));
        r
    }

    /// The element that 32 big-endian bytes denote, reduced modulo the prime.
    pub fn from_bytes_be(bytes: &[u8; 32]) -> (r: Felt)
        ensures
            r@ == felt_bytes_of(be_value(bytes@)),
    {
        Felt { bytes: reduce_be(bytes) }
    }

    /// Parses one to 64 hex digits of either case, after an optional `0x`,
    /// modulo the prime; `None` for any other text.
    pub fn from_hex(text: &str) -> (r: Option<Felt>)
        ensures
            r is Some <==> hex_accepted(text.spec_bytes()),
            r is Some ==> r.unwrap()@ == felt_bytes_of(hex_value(hex_body(text.spec_bytes()))),
    {
        field_from_hex(text)
    }

    /// The 32 big-endian bytes of the element.
    pub fn to_bytes_be(&self) -> (r: [u8; 32])
        ensures
            r@ == self@,
    {
        self.bytes
    }

    /// Pedersen hash of two elements.
    pub fn pedersen(a: &Felt, b: &Felt) -> (r: Felt)
        ensures
            r@ == pedersen_of(a@, b@),
    {
        pedersen_hash(a, b)
    }

    /// Poseidon hash of two elements.
    pub fn poseidon(a: &Felt, b: &Felt) -> (r: Felt)
        ensures
            r@ == poseidon_of(a@, b@),
    {
        poseidon_hash(a, b)
    }

    /// Field addition.
    pub fn add(&self, other: &Felt) -> (r: Felt)
        ensures
            r@ == felt_bytes_of(be_value(self@) + be_value(other@)),
    {
        field_add(self, other)
    }

    /// `0x` and the shortest lowercase hex digits of the element.
    pub fn to_hex_string(&self) -> (r: String)
        ensures
            r@ == felt_text(self@),
    {
        field_lower_hex(self)
    }
}

} // verus!
