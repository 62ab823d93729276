//! Big-endian integers as they stand on the wire.
use byteorder::BigEndian;
use byteorder::ByteOrder;
use vstd::prelude::*;

verus! {

/// The 16-bit number whose big-endian bytes are `b0`, `b1`.
pub open spec fn be16(b0: u8, b1: u8) -> u16 {
    (b0 as int * 256 + b1 as int) as u16
}

/// The 32-bit number whose big-endian bytes are `b0` to `b3`.
pub open spec fn be32(b0: u8, b1: u8, b2: u8, b3: u8) -> u32 {
    (b0 as int * 16777216 + b1 as int * 65536 + b2 as int * 256 + b3 as int) as u32
}

/// The big-endian bytes of a 16-bit number.
pub open spec fn be16_bytes(n: u16) -> Seq<u8> {
    seq![(n / 256) as u8, (n % 256) as u8]
}

/// The big-endian bytes of a 32-bit number.
pub open spec fn be32_bytes(n: u32) -> Seq<u8> {
    seq![
        (n / 16777216) as u8,
        (n / 65536 % 256) as u8,
        (n / 256 % 256) as u8,
        (n % 256) as u8,
    ]
}

/// Calls `byteorder::BigEndian::read_u16`.
///
/// Trusted: the result is the number that the first two bytes spell in
/// big-endian order. The call panics on fewer than two bytes, which the
/// precondition rules out.
#[verifier::external_body]
pub(crate) fn read_u16(bytes: &[u8]) -> (n: u16)
    requires
        bytes@.len() >= 2,
    ensures
        n == be16(bytes@[0], bytes@[1]),
{
    BigEndian::read_u16(bytes)
}

/// Calls `byteorder::BigEndian::write_u16` on a two-byte array.
///
/// Trusted: the array then holds the big-endian bytes of `n`.
#[verifier::external_body]
pub(crate) fn u16_bytes(n: u16) -> (bytes: [u8; 2])
    ensures
        bytes@ == be16_bytes(n),
{
    let mut bytes = [0u8; 2];
    BigEndian::write_u16(&mut bytes, n);
    bytes
}

/// Calls `byteorder::BigEndian::write_u32` on a four-byte array.
///
/// Trusted: the array then holds the big-endian bytes of `n`.
#[verifier::external_body]
pub(crate) fn u32_bytes(n: u32) -> (bytes: [u8; 4])
    ensures
        bytes@ == be32_bytes(n),
{
    let mut bytes = [0u8; 4];
    BigEndian::write_u32(&mut bytes, n);
    bytes
}

/// Writing a 16-bit number and reading it back gives the number.
pub proof fn lemma_be16_round_trip(n: u16)
    ensures
        be16_bytes(n).len() == 2,
        be16(be16_bytes(n)[0], be16_bytes(n)[1]) == n,
{
}

/// Writing a 32-bit number and reading it back gives the number.
pub proof fn lemma_be32_round_trip(n: u32)
    ensures
        be32_bytes(n).len() == 4,
        be32(be32_bytes(n)[0], be32_bytes(n)[1], be32_bytes(n)[2], be32_bytes(n)[3]) == n,
{
}

} // verus!
