//! Fixed-width integers in little- and big-endian byte order, read and
//! written through the `byteorder` crate.

use byteorder::{BigEndian, ByteOrder, LittleEndian};
use vstd::bytes::*;
use vstd::prelude::*;

verus! {

/// The `u16` whose big-endian encoding is the first two bytes of `s`.
pub open spec fn spec_u16_from_be_bytes(s: Seq<u8>) -> u16 {
    (s[0] as int * 0x100 + s[1] as int) as u16
}

/// The `u32` whose big-endian encoding is the first four bytes of `s`.
pub open spec fn spec_u32_from_be_bytes(s: Seq<u8>) -> u32 {
    (s[0] as int * 0x1000000 + s[1] as int * 0x10000 + s[2] as int * 0x100 + s[3] as int) as u32
}

/// `LittleEndian::read_u16`: the first two bytes of `buf` as a little-endian `u16`
/// (the crate panics on a shorter buffer).
#[verifier::external_body]
pub(crate) fn read_u16_le(buf: &[u8]) -> (r: u16)
    requires
        buf@.len() >= 2,
    ensures
        r == spec_u16_from_le_bytes(buf@.subrange(0, 2)),
{
    LittleEndian::read_u16(buf)
}

/// `LittleEndian::read_u32`: the first four bytes of `buf` as a little-endian `u32`
/// (the crate panics on a shorter buffer).
#[verifier::external_body]
pub(crate) fn read_u32_le(buf: &[u8]) -> (r: u32)
    requires
        buf@.len() >= 4,
    ensures
        r == spec_u32_from_le_bytes(buf@.subrange(0, 4)),
{
    LittleEndian::read_u32(buf)
}

/// `LittleEndian::read_i32`: the first four bytes of `buf` as a little-endian `u32`,
/// reinterpreted as an `i32` (the crate panics on a shorter buffer).
#[verifier::external_body]
pub(crate) fn read_i32_le(buf: &[u8]) -> (r: i32)
    requires
        buf@.len() >= 4,
    ensures
        r == spec_u32_from_le_bytes(buf@.subrange(0, 4)) as i32,
{
    LittleEndian::read_i32(buf)
}

/// `LittleEndian::read_u64`: the first eight bytes of `buf` as a little-endian `u64`
/// (the crate panics on a shorter buffer).
#[verifier::external_body]
pub(crate) fn read_u64_le(buf: &[u8]) -> (r: u64)
    requires
        buf@.len() >= 8,
    ensures
        r == spec_u64_from_le_bytes(buf@.subrange(0, 8)),
{
    LittleEndian::read_u64(buf)
}

/// `BigEndian::read_u16`: the first two bytes of `buf` as a big-endian `u16`
/// (the crate panics on a shorter buffer).
#[verifier::external_body]
pub(crate) fn read_u16_be(buf: &[u8]) -> (r: u16)
    requires
        buf@.len() >= 2,
    ensures
        r == spec_u16_from_be_bytes(buf@),
{
    BigEndian::read_u16(buf)
}

/// `BigEndian::read_u32`: the first four bytes of `buf` as a big-endian `u32`
/// (the crate panics on a shorter buffer).
#[verifier::external_body]
pub(crate) fn read_u32_be(buf: &[u8]) -> (r: u32)
    requires
        buf@.len() >= 4,
    ensures
        r == spec_u32_from_be_bytes(buf@),
{
    BigEndian::read_u32(buf)
}

/// `LittleEndian::write_i32` into a fresh four-byte buffer: the little-endian
/// bytes of `n` reinterpreted as a `u32`.
#[verifier::external_body]
pub(crate) fn i32_to_le_bytes(n: i32) -> (r: Vec<u8>)
    ensures
        r@ == spec_u32_to_le_bytes(n as u32),
{
    let mut buf = vec![0u8; 4];
    LittleEndian::write_i32(&mut buf, n);
    buf
}

/// `LittleEndian::write_u64` into a fresh eight-byte buffer: the little-endian
/// bytes of `n`.
#[verifier::external_body]
pub(crate) fn u64_to_le_bytes(n: u64) -> (r: Vec<u8>)
    ensures
        r@ == spec_u64_to_le_bytes(n),
{
    let mut buf = vec![0u8; 8];
    LittleEndian::write_u64(&mut buf, n);
    buf
}

/// Little-endian encoding and decoding of an `i32` undo each other.
pub proof fn lemma_i32_le_roundtrip(n: i32)
    ensures
        spec_u32_to_le_bytes(#[verifier::truncate] (n as u32)).len() == 4,
        #[verifier::truncate] (spec_u32_from_le_bytes(spec_u32_to_le_bytes(#[verifier::truncate] (n as u32))) as i32) == n,
{
    lemma_auto_spec_u32_to_from_le_bytes();
    let u = #[verifier::truncate] (n as u32);
    assert(spec_u32_to_le_bytes(u).len() == 4);
    assert(spec_u32_from_le_bytes(spec_u32_to_le_bytes(u)) == u);
    assert(#[verifier::truncate] (u as i32) == n) by (bit_vector)
        requires
            u == #[verifier::truncate] (n as u32),
    ;
}

/// Little-endian encoding and decoding of a `u64` undo each other.
pub proof fn lemma_u64_le_roundtrip(n: u64)
    ensures
        spec_u64_to_le_bytes(n).len() == 8,
        spec_u64_from_le_bytes(spec_u64_to_le_bytes(n)) == n,
{
    lemma_auto_spec_u64_to_from_le_bytes();
}

} // verus!
