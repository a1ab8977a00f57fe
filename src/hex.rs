use vstd::prelude::*;
use vstd::string::{StrSliceExecFns, StringExecFns, StringSliceAdditionalSpecFns};
use vstd::utf8::encode_utf8;

use crate::felt::{
    be_value, felt_bytes_of, felt_text, hex_accepted, hex_body, hex_text, hex_value, lower_hex_digit,
    stark_prime, Felt,
};

verus! {

/// The lowercase hex digits of a byte string, two per byte.
pub open spec fn hex_of_bytes(b: Seq<u8>) -> Seq<char>
    decreases b.len(),
{
    if b.len() == 0 {
        Seq::empty()
    } else {
        hex_of_bytes(b.drop_last()).push(lower_hex_digit((b.last() / 16) as nat)).push(
            lower_hex_digit((b.last() % 16) as nat),
        )
    }
}

/// The value of a hex digit of either case.
pub open spec fn hex_char_value(c: char) -> Option<nat> {
    if '0' <= c <= '9' {
        Some((c as u32 - '0' as u32) as nat)
    } else if 'a' <= c <= 'f' {
        Some((c as u32 - 'a' as u32 + 10) as nat)
    } else if 'A' <= c <= 'F' {
        Some((c as u32 - 'A' as u32 + 10) as nat)
    } else {
        None
    }
}

/// Whether a character has the Unicode White_Space property.
pub open spec fn is_white_space(c: char) -> bool {
    ('\u{9}' <= c <= '\u{d}') || c == ' ' || c == '\u{85}' || c == '\u{a0}' || c == '\u{1680}'
        || ('\u{2000}' <= c <= '\u{200a}') || c == '\u{2028}' || c == '\u{2029}' || c
        == '\u{202f}' || c == '\u{205f}' || c == '\u{3000}'
}

pub open spec fn trim_start(s: Seq<char>) -> Seq<char>
    decreases s.len(),
{
    if s.len() > 0 && is_white_space(s[0]) {
        trim_start(s.drop_first())
    } else {
        s
    }
}

pub open spec fn trim_end(s: Seq<char>) -> Seq<char>
    decreases s.len(),
{
    if s.len() > 0 && is_white_space(s.last()) {
        trim_end(s.drop_last())
    } else {
        s
    }
}

/// A text without its leading and trailing white space.
pub open spec fn trimmed(s: Seq<char>) -> Seq<char> {
    trim_end(trim_start(s))
}

/// Relies on std's `str::trim`: the text without leading and trailing
/// characters that have the Unicode White_Space property.
#[verifier::external_body]
fn trim_text<'a>(s: &'a str) -> (r: &'a str)
    ensures
        r@ == trimmed(s@),
{
    s.trim()
}

/// The text after a leading `0x`, if any.
pub open spec fn without_0x(s: Seq<char>) -> Seq<char> {
    if s.len() >= 2 && s[0] == '0' && s[1] == 'x' {
        s.subrange(2, s.len() as int)
    } else {
        s
    }
}

/// Whether a text is an even number of hex digits.
pub open spec fn is_hex_pairs(d: Seq<char>) -> bool {
    &&& d.len() % 2 == 0
    &&& forall|i: int| 0 <= i < d.len() ==> (#[trigger] hex_char_value(d[i])) is Some
}

/// The bytes that pairs of hex digits spell.
pub open spec fn bytes_of_hex_pairs(d: Seq<char>) -> Seq<u8> {
    Seq::new(
        d.len() / 2,
        |k: int| (16 * hex_char_value(d[2 * k]).unwrap() + hex_char_value(d[2 * k + 1]).unwrap()) as u8,
    )
}

/// The short display form of a hex text: texts of up to 14 characters stay
/// whole, longer ones keep their first ten and last four around an ellipsis.
pub open spec fn shortened(s: Seq<char>) -> Seq<char> {
    if s.len() <= 14 {
        s
    } else {
        s.subrange(0, 10).push('\u{2026}') + s.subrange(s.len() - 4, s.len() as int)
    }
}

/// The felt that a hex text denotes for `parse_felt_hex`, once trimmed:
/// zero for an empty text or a bare `0x`, else what the field's hex parser
/// reads, if anything.
pub open spec fn felt_text_value(b: Seq<u8>) -> Option<Seq<u8>> {
    if b.len() == 0 || b == seq![0x30u8, 0x78] {
        Some(Seq::new(32, |i: int| 0u8))
    } else if hex_accepted(b) {
        Some(felt_bytes_of(hex_value(hex_body(b))))
    } else {
        None
    }
}

/// The felt that a hex text denotes: white space around it is ignored.
pub open spec fn felt_text_of(text: Seq<char>) -> Option<Seq<u8>> {
    felt_text_value(encode_utf8(trimmed(text)))
}

/// Relies on std's `String::push`: appends one character.
#[verifier::external_body]
fn push_char(s: &mut String, c: char)
    ensures
        final(s)@ == old(s)@.push(c),
{
    s.push(c)
}

fn hex_digit(d: u8) -> (c: char)
    requires
        d < 16,
    ensures
        c == lower_hex_digit(d as nat),
{
    match d {
        0 => '0',
        1 => '1',
        2 => '2',
        3 => '3',
        4 => '4',
        5 => '5',
        6 => '6',
        7 => '7',
        8 => '8',
        9 => '9',
        10 => 'a',
        11 => 'b',
        12 => 'c',
        13 => 'd',
        14 => 'e',
        _ => 'f',
    }
}

fn digit_value(c: char) -> (r: Option<u8>)
    ensures
        r is Some <==> hex_char_value(c) is Some,
        r is Some ==> r.unwrap() as nat == hex_char_value(c).unwrap(),
{
    if '0' <= c && c <= '9' {
        Some((c as u32 - '0' as u32) as u8)
    } else if 'a' <= c && c <= 'f' {
        Some((c as u32 - 'a' as u32 + 10) as u8)
    } else if 'A' <= c && c <= 'F' {
        Some((c as u32 - 'A' as u32 + 10) as u8)
    } else {
        None
    }
}

/// `0x` and two lowercase hex digits per byte.
pub fn bytes_to_hex(bytes: &[u8]) -> (r: String)
    ensures
        r@ == seq!['0', 'x'] + hex_of_bytes(bytes@),
{
    let mut s = <String as StringExecFns>::from_str("0x");
    proof {
        reveal_strlit("0x");
    }
    let mut i: usize = 0;
    while i < bytes.len()
        invariant
            i <= bytes@.len(),
            s@ == seq!['0', 'x'] + hex_of_bytes(bytes@.subrange(0, i as int)),
        decreases bytes@.len() - i,
    {
        let b = bytes[i];
        push_char(&mut s, hex_digit(b / 16));
        push_char(&mut s, hex_digit(b % 16));
        i = i + 1;
        assert(bytes@.subrange(0, i as int).drop_last() == bytes@.subrange(0, i - 1));
    }
    assert(bytes@.subrange(0, i as int) == bytes@);
    s
}

/// The bytes that a hex text spells: white space around it is ignored, then
/// an optional `0x`; `None` unless the rest is an even number of hex digits.
pub fn hex_to_bytes(hex: &str) -> (r: Option<Vec<u8>>)
    ensures
        r is Some <==> is_hex_pairs(without_0x(trimmed(hex@))),
        r is Some ==> r.unwrap()@ == bytes_of_hex_pairs(without_0x(trimmed(hex@))),
{
    hex_pairs_to_bytes(trim_text(hex))
}

fn hex_pairs_to_bytes(hex: &str) -> (r: Option<Vec<u8>>)
    ensures
        r is Some <==> is_hex_pairs(without_0x(hex@)),
        r is Some ==> r.unwrap()@ == bytes_of_hex_pairs(without_0x(hex@)),
{
    let n = hex.unicode_len();
    let start: usize = if n >= 2 && hex.get_char(0) == '0' && hex.get_char(1) == 'x' {
        2
    } else {
        0
    };
    let ghost d = without_0x(hex@);
    assert(d =~= hex@.subrange(start as int, n as int));
    if (n - start) % 2 != 0 {
        return None;
    }
    let mut out: Vec<u8> = Vec::new();
    let mut k: usize = 0;
    while start + 2 * k < n
        invariant
            n == hex@.len(),
            start <= n,
            (n - start) % 2 == 0,
            d == hex@.subrange(start as int, n as int),
            d == without_0x(hex@),
            start + 2 * k <= n,
            out@.len() == k,
            forall|q: int| 0 <= q < 2 * k ==> (#[trigger] hex_char_value(d[q])) is Some,
            forall|q: int|
                0 <= q < k ==> out@[q] == (16 * hex_char_value(d[2 * q]).unwrap()
                    + hex_char_value(d[2 * q + 1]).unwrap()) as u8,
        decreases n - start - 2 * k,
    {
        let hi = match digit_value(hex.get_char(start + 2 * k)) {
            Some(v) => v,
            None => {
                assert(hex_char_value(d[2 * k as int]) is None);
                assert(!is_hex_pairs(d));
                return None;
            },
        };
        let lo = match digit_value(hex.get_char(start + 2 * k + 1)) {
            Some(v) => v,
            None => {
                assert(hex_char_value(d[2 * k + 1]) is None);
                assert(!is_hex_pairs(d));
                return None;
            },
        };
        out.push(16 * hi + lo);
        k = k + 1;
    }
    assert(out@ =~= bytes_of_hex_pairs(d));
    Some(out)
}

/// Parses a felt from hex, with or without `0x`, ignoring white space around
/// it; an empty text (or a bare `0x`) is zero. Otherwise one to 64 hex
/// digits are read modulo the prime.
pub fn parse_felt_hex(input: &str) -> (r: Result<Felt, String>)
    ensures
        r is Ok <==> felt_text_of(input@) is Some,
        r is Ok ==> r.unwrap()@ == felt_text_of(input@).unwrap(),
{
    parse_trimmed_felt_hex(trim_text(input))
}

fn parse_trimmed_felt_hex(input: &str) -> (r: Result<Felt, String>)
    ensures
        r is Ok <==> felt_text_value(input.spec_bytes()) is Some,
        r is Ok ==> r.unwrap()@ == felt_text_value(input.spec_bytes()).unwrap(),
{
    let b = input.as_bytes();
    if b.len() == 0 || (b.len() == 2 && b[0] == 0x30 && b[1] == 0x78) {
        assert(b.len() == 0 || b@ =~= seq![0x30u8, 0x78]);
        return Ok(Felt::zero());
    }
    assert(b@ != seq![0x30u8, 0x78]);
    match Felt::from_hex(input) {
        Some(f) => Ok(f),
        None => Err(<String as StringExecFns>::from_str("invalid felt")),
    }
}

/// The felt's hex text, shortened for display when longer than 14 characters.
pub fn format_felt_short(felt: &Felt) -> (r: String)
    ensures
        r@ == shortened(felt_text(felt@)),
{
    let s = felt.to_hex_string();
    let n = s.as_str().unicode_len();
    if n <= 14 {
        return s;
    }
    let mut out = <String as StringExecFns>::from_str(s.as_str().substring_char(0, 10));
    push_char(&mut out, '\u{2026}');
    out.append(s.as_str().substring_char(n - 4, n));
    out
}

/// Reads a felt stored as 32 big-endian bytes at the front of a buffer,
/// reduced modulo the prime; `None` when fewer than 32 bytes are there.
pub fn decode_felt_scale(bytes: &[u8]) -> (r: Option<Felt>)
    ensures
        r is Some <==> bytes@.len() >= 32,
        r is Some ==> r.unwrap()@ == felt_bytes_of(be_value(bytes@.subrange(0, 32))),
{
    if bytes.len() < 32 {
        return None;
    }
    let mut raw = [0u8; 32];
    let mut i: usize = 0;
    while i < 32
        invariant
            32 <= bytes@.len(),
            i <= 32,
            raw@.len() == 32,
            forall|j: int| 0 <= j < i ==> raw@[j] == bytes@[j],
        decreases 32 - i,
    {
        raw[i] = bytes[i];
        i = i + 1;
    }
    assert(raw@ =~= bytes@.subrange(0, 32));
    Some(Felt::from_bytes_be(&raw))
}

} // verus!
