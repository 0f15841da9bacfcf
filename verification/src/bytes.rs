//! Little-endian integers and UTF-8 text inside a byte sequence.

use crate::pak::PakError;
use byteorder::{ByteOrder, LittleEndian};
use vstd::prelude::*;
use vstd::utf8::{decode_utf8, valid_utf8};

verus! {

/// The 16-bit value whose little-endian encoding starts at index `at` of `s`.
pub open spec fn le_u16(s: Seq<u8>, at: int) -> u16
    recommends
        0 <= at,
        at + 2 <= s.len(),
{
    (s[at] as int + s[at + 1] as int * 0x100) as u16
}

/// The 32-bit value whose little-endian encoding starts at index `at` of `s`.
pub open spec fn le_u32(s: Seq<u8>, at: int) -> u32
    recommends
        0 <= at,
        at + 4 <= s.len(),
{
    (s[at] as int + s[at + 1] as int * 0x100 + s[at + 2] as int * 0x1_0000 + s[at + 3] as int
        * 0x100_0000) as u32
}

/// The 64-bit value whose little-endian encoding starts at index `at` of `s`.
pub open spec fn le_u64(s: Seq<u8>, at: int) -> u64
    recommends
        0 <= at,
        at + 8 <= s.len(),
{
    (le_u32(s, at) as int + le_u32(s, at + 4) as int * 0x1_0000_0000) as u64
}

/// What a length-prefixed string at index `at` of `s` decodes to: one byte
/// gives the length, that many bytes follow and must be valid UTF-8. The
/// result is the text and the index just behind it.
pub open spec fn prefixed_text(s: Seq<u8>, at: int) -> Result<(Seq<char>, int), PakError> {
    if at + 1 > s.len() {
        Err(PakError::TruncatedInput)
    } else {
        let end = at + 1 + s[at] as int;
        if end > s.len() {
            Err(PakError::TruncatedInput)
        } else if !valid_utf8(s.subrange(at + 1, end)) {
            Err(PakError::InvalidEncoding)
        } else {
            Ok((decode_utf8(s.subrange(at + 1, end)), end))
        }
    }
}

/// Calls `byteorder::ByteOrder::read_u16` of `byteorder::LittleEndian`.
///
/// Trusted: the call decodes the first two bytes of `bytes` as a
/// little-endian integer, and panics on a shorter slice, which the
/// precondition rules out.
#[verifier::external_body]
pub(crate) fn decode_u16(bytes: &[u8]) -> (v: u16)
    requires
        bytes@.len() >= 2,
    ensures
        v == le_u16(bytes@, 0),
{
    LittleEndian::read_u16(bytes)
}

/// Calls `byteorder::ByteOrder::read_u32` of `byteorder::LittleEndian`.
///
/// Trusted: the call decodes the first four bytes of `bytes` as a
/// little-endian integer, and panics on a shorter slice, which the
/// precondition rules out.
#[verifier::external_body]
pub(crate) fn decode_u32(bytes: &[u8]) -> (v: u32)
    requires
        bytes@.len() >= 4,
    ensures
        v == le_u32(bytes@, 0),
{
    LittleEndian::read_u32(bytes)
}

/// Calls `byteorder::ByteOrder::read_u64` of `byteorder::LittleEndian`.
///
/// Trusted: the call decodes the first eight bytes of `bytes` as a
/// little-endian integer, and panics on a shorter slice, which the
/// precondition rules out.
#[verifier::external_body]
pub(crate) fn decode_u64(bytes: &[u8]) -> (v: u64)
    requires
        bytes@.len() >= 8,
    ensures
        v == le_u64(bytes@, 0),
{
    LittleEndian::read_u64(bytes)
}

/// Calls `String::from_utf8`.
///
/// Trusted: the call succeeds exactly on valid UTF-8, and the string it
/// returns holds the characters that the bytes encode.
#[verifier::external_body]
pub(crate) fn decode_text(bytes: Vec<u8>) -> (r: Option<String>)
    ensures
        r is Some <==> valid_utf8(bytes@),
        r matches Some(s) ==> s@ == decode_utf8(bytes@),
{
    match String::from_utf8(bytes) {
        Ok(s) => Some(s),
        Err(_) => None,
    }
}

} // verus!
