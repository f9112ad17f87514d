//! Hex text and byte buffers: what the outside crates compute for the
//! library, and the statements the library relies on about them.

use vstd::prelude::*;

use crate::nibbles::Nibble;
use crate::u256::{high_nibble, low_nibble, U256};

verus! {

/// The lowercase hex digit of a nibble.
pub open spec fn hex_digit(d: Nibble) -> char {
    seq!['0', '1', '2', '3', '4', '5', '6', '7', '8', '9', 'a', 'b', 'c', 'd', 'e', 'f'][d as int]
}

/// Each byte as two lowercase hex digits, the high nibble first.
pub open spec fn hex_of(b: Seq<u8>) -> Seq<char> {
    Seq::new(
        2 * b.len(),
        |i: int|
            if i % 2 == 0 {
                hex_digit(high_nibble(b[i / 2]))
            } else {
                hex_digit(low_nibble(b[i / 2]))
            },
    )
}

/// The value of a hex digit in either case, if it is one.
pub open spec fn hex_value(c: char) -> Option<Nibble> {
    if '0' <= c <= '9' {
        Some((c as u32 - '0' as u32) as u8)
    } else if 'a' <= c <= 'f' {
        Some((c as u32 - 'a' as u32 + 10) as u8)
    } else if 'A' <= c <= 'F' {
        Some((c as u32 - 'A' as u32 + 10) as u8)
    } else {
        None
    }
}

/// The digits of a hex literal: the text after a leading `0x`, if any.
pub open spec fn hex_digits(s: Seq<char>) -> Seq<char> {
    if s.len() >= 2 && s[0] == '0' && s[1] == 'x' {
        s.subrange(2, s.len() as int)
    } else {
        s
    }
}

/// `s` is a hex literal that fits 256 bits: at most 64 digits, all hex.
pub open spec fn is_hex_key(s: Seq<char>) -> bool {
    let d = hex_digits(s);
    d.len() <= 64 && forall|i: int| 0 <= i < d.len() ==> (#[trigger] hex_value(d[i])) is Some
}

/// `k` holds the value of the hex literal `s`, its last digit lowest.
pub open spec fn holds_hex_key(k: U256, s: Seq<char>) -> bool {
    let d = hex_digits(s);
    k.zero_from(d.len() as int) && forall|p: int|
        0 <= p < d.len() ==> Some(#[trigger] k.nib(p)) == hex_value(d[d.len() - 1 - p])
}

/// The error of `uint`'s hex parser, carried through unread.
#[verifier::external_type_specification]
#[verifier::external_body]
pub struct ExFromHexError(uint::FromHexError);

/// The byte buffer of the `bytes` crate, carried through unread.
#[verifier::external_type_specification]
#[verifier::external_body]
pub struct ExBytes(bytes::Bytes);

/// What a `Bytes` buffer holds.
pub uninterp spec fn bytes_contents(b: bytes::Bytes) -> Seq<u8>;

/// Relies on `From<Vec<u8>>` for `bytes::Bytes`: the buffer takes the
/// vector's bytes as they are.
#[verifier::external_body]
pub(crate) fn bytes_from_vec(v: Vec<u8>) -> (r: bytes::Bytes)
    ensures
        bytes_contents(r) == v@,
{
    bytes::Bytes::from(v)
}

/// Relies on `hex::encode`: two lowercase hex digits per byte, the high
/// nibble first.
#[verifier::external_body]
pub(crate) fn encode_hex(b: &[u8]) -> (r: String)
    ensures
        r@ == hex_of(b@),
{
    hex::encode(b)
}

/// Relies on `FromStr` for `ethereum_types::U256` (from `uint`): it drops a
/// leading `0x`, then reads at most 64 hex digits of either case as a
/// big-endian value, and fails on anything else.
#[verifier::external_body]
pub(crate) fn parse_hex_key(s: &str) -> (r: Result<U256, uint::FromHexError>)
    ensures
        r is Ok <==> is_hex_key(s@),
        r is Ok ==> holds_hex_key(r->Ok_0, s@),
{
    match <ethereum_types::U256 as std::str::FromStr>::from_str(s) {
        Ok(k) => Ok(U256 { be: k.to_big_endian() }),
        Err(e) => Err(e),
    }
}

} // verus!
