//! Big-endian 32-bit integers, as they stand in a header.

use byteorder::{BigEndian, ByteOrder};
use vstd::prelude::*;

verus! {

/// The number that the first four bytes of `b` spell, most significant byte first.
pub open spec fn be_u32(b: Seq<u8>) -> u32
    recommends
        b.len() >= 4,
{
    (b[0] as int * 0x100_0000 + b[1] as int * 0x1_0000 + b[2] as int * 0x100 + b[3] as int) as u32
}

/// The four bytes that spell `n`, most significant byte first.
pub open spec fn be_bytes(n: u32) -> Seq<u8> {
    seq![
        (n / 0x100_0000) as u8,
        ((n / 0x1_0000) % 0x100) as u8,
        ((n / 0x100) % 0x100) as u8,
        (n % 0x100) as u8,
    ]
}

/// Reading back what was written gives the number that was written.
pub proof fn lemma_be_round_trip(n: u32)
    ensures
        be_bytes(n).len() == 4,
        be_u32(be_bytes(n)) == n,
{
}

/// The first byte written is `0xFF` exactly for the numbers from `0xFF00_0000` up.
pub proof fn lemma_be_leading_byte(n: u32)
    ensures
        be_bytes(n)[0] == 0xFF <==> n >= 0xFF00_0000,
{
}

/// Calls `byteorder`'s `<BigEndian as ByteOrder>::read_u32`, which hands the
/// first four bytes of the slice to `u32::from_be_bytes` and panics on a
/// shorter slice. Trusted: the result is `be_u32` of the slice.
#[verifier::external_body]
pub(crate) fn read_u32_be(buf: &[u8]) -> (n: u32)
    requires
        buf@.len() >= 4,
    ensures
        n == be_u32(buf@),
{
    BigEndian::read_u32(buf)
}

/// Calls `byteorder`'s `<BigEndian as ByteOrder>::write_u32`, which copies
/// `n.to_be_bytes()` over the first four bytes of the buffer and panics on a
/// shorter one. Trusted: the first four bytes become `be_bytes(n)`, the rest
/// stay as they were.
#[verifier::external_body]
pub(crate) fn write_u32_be(buf: &mut Vec<u8>, n: u32)
    requires
        old(buf)@.len() >= 4,
    ensures
        final(buf)@ == be_bytes(n) + old(buf)@.skip(4),
{
    BigEndian::write_u32(buf.as_mut_slice(), n)
}

} // verus!
