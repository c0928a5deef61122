//! Random numbers and identifiers.

use vstd::prelude::*;

use crate::wire::{be32, read_u32};

verus! {

/// `getrandom::fill`: `n` random bytes, or nothing where the system has none to
/// give. Nothing is claimed of the bytes but their number.
#[verifier::external_body]
pub(crate) fn random_bytes(n: usize) -> (r: Option<Vec<u8>>)
    ensures
        r matches Some(v) ==> v@.len() == n,
{
    let mut buf = vec![0u8; n];
    match getrandom::fill(&mut buf) {
        Ok(()) => Some(buf),
        Err(_) => None,
    }
}

/// A random 32-bit number, or nothing where the system has none to give: the big-endian
/// integer that four random bytes are.
pub fn random_u32() -> (r: Option<u32>)
    ensures
        r matches Some(x) ==> exists|bytes: Seq<u8>|
            bytes.len() == 4 && x == #[trigger] be32(bytes, 0),
{
    match random_bytes(4) {
        Some(b) => Some(read_u32(&b, 0)),
        None => None,
    }
}

/// The little-endian 16-bit integer that two bytes are.
pub open spec fn le16(bytes: Seq<u8>) -> u16 {
    (bytes[1] * 0x100 + bytes[0]) as u16
}

/// The number that two random bytes stand for.
pub fn number_of(bytes: &Vec<u8>) -> (r: u16)
    requires
        bytes@.len() == 2,
    ensures
        r == le16(bytes@),
{
    bytes[1] as u16 * 0x100 + bytes[0] as u16
}

/// A random 16-bit number, or nothing where the system has none to give: the
/// little-endian integer that two random bytes are.
pub fn random_u16() -> (r: Option<u16>)
    ensures
        r matches Some(x) ==> exists|bytes: Seq<u8>|
            bytes.len() == 2 && x == #[trigger] le16(bytes),
{
    match random_bytes(2) {
        Some(b) => Some(number_of(&b)),
        None => None,
    }
}

/// The text of the version 4 UUID that `uuid` makes of sixteen random bytes.
pub uninterp spec fn uuid_v4_text(random: Seq<u8>) -> Seq<char>;

/// `uuid::Builder::from_random_bytes`, then `Uuid::to_string`: the hyphenated
/// form of the version 4 UUID made of these bytes, 36 characters long.
#[verifier::external_body]
pub(crate) fn uuid_from_random(random: [u8; 16]) -> (r: String)
    ensures
        r@ == uuid_v4_text(random@),
        r@.len() == 36,
{
    uuid::Builder::from_random_bytes(random).into_uuid().to_string()
}

/// The UUID of sixteen random bytes.
pub fn uuid_of(b: &Vec<u8>) -> (r: String)
    requires
        b@.len() == 16,
    ensures
        r@ == uuid_v4_text(b@),
        r@.len() == 36,
{
    let a: [u8; 16] = [
        b[0], b[1], b[2], b[3], b[4], b[5], b[6], b[7], b[8], b[9], b[10], b[11], b[12], b[13],
        b[14], b[15],
    ];
    assert(a@ =~= b@);
    uuid_from_random(a)
}

/// Whether a text is that of a version 4 UUID.
pub open spec fn is_uuid(s: Seq<char>) -> bool {
    s.len() == 36 && exists|bytes: Seq<u8>|
        bytes.len() == 16 && s == #[trigger] uuid_v4_text(bytes)
}

/// A fresh UUID, or nothing where the system has no random numbers to give.
pub fn fresh_uuid() -> (r: Option<String>)
    ensures
        r matches Some(s) ==> is_uuid(s@),
{
    match random_bytes(16) {
        Some(b) => Some(uuid_of(&b)),
        None => None,
    }
}

} // verus!
