//! Big-endian byte order: specification-level views of multi-byte scalars
//! and the lemmas that relate encoding and decoding of one scalar.
//!
//! All on-disk multi-byte integers of the formats in this crate are
//! big-endian.  The specification model works arithmetically: a scalar is
//! the weighted sum of its bytes, and its encoding is the digit expansion
//! base 256.

use vstd::prelude::*;

verus! {

/// The unsigned 16-bit value stored big-endian as the bytes `b0 b1`.
pub open spec fn u16v(b0: u8, b1: u8) -> u16 {
    ((b0 as int) * 0x100 + (b1 as int)) as u16
}

/// The unsigned 32-bit value stored big-endian as the bytes `b0 b1 b2 b3`.
pub open spec fn u32v(b0: u8, b1: u8, b2: u8, b3: u8) -> u32 {
    ((b0 as int) * 0x1000000 + (b1 as int) * 0x10000 + (b2 as int) * 0x100 + (b3 as int)) as u32
}

/// The signed 16-bit value stored big-endian as the bytes `b0 b1`.
pub open spec fn i16v(b0: u8, b1: u8) -> i16 {
    u16v(b0, b1) as i16
}

/// The signed 32-bit value stored big-endian as the bytes `b0 b1 b2 b3`.
pub open spec fn i32v(b0: u8, b1: u8, b2: u8, b3: u8) -> i32 {
    u32v(b0, b1, b2, b3) as i32
}

/// The two-byte big-endian encoding of `v`.
pub open spec fn be16(v: u16) -> Seq<u8> {
    seq![(v as int / 0x100) as u8, (v as int % 0x100) as u8]
}

/// The four-byte big-endian encoding of `v`.
pub open spec fn be32(v: u32) -> Seq<u8> {
    seq![
        (v as int / 0x1000000) as u8,
        (v as int / 0x10000 % 0x100) as u8,
        (v as int / 0x100 % 0x100) as u8,
        (v as int % 0x100) as u8,
    ]
}

/// The two-byte big-endian encoding of a signed 16-bit value.
pub open spec fn be_i16(v: i16) -> Seq<u8> {
    be16(v as u16)
}

/// The four-byte big-endian encoding of a signed 32-bit value.
pub open spec fn be_i32(v: i32) -> Seq<u8> {
    be32(v as u32)
}

/// Decoding the encoding of an unsigned 16-bit value gives it back.
pub proof fn lemma_be16_roundtrip(v: u16)
    ensures
        be16(v).len() == 2,
        u16v(be16(v)[0], be16(v)[1]) == v,
{
}

/// Decoding the encoding of an unsigned 32-bit value gives it back.
pub proof fn lemma_be32_roundtrip(v: u32)
    ensures
        be32(v).len() == 4,
        u32v(be32(v)[0], be32(v)[1], be32(v)[2], be32(v)[3]) == v,
{
}

/// Casting a signed 32-bit value to unsigned and back is the identity.
pub proof fn lemma_i32_cast_roundtrip(v: i32)
    ensures
        ((v as u32) as i32) == v,
{
    assert(((v as u32) as i32) == v) by (bit_vector);
}

/// Casting a signed 16-bit value to unsigned and back is the identity.
pub proof fn lemma_i16_cast_roundtrip(v: i16)
    ensures
        ((v as u16) as i16) == v,
{
    assert(((v as u16) as i16) == v) by (bit_vector);
}

/// Decoding the encoding of a signed 32-bit value gives it back.
pub proof fn lemma_be_i32_roundtrip(v: i32)
    ensures
        be_i32(v).len() == 4,
        i32v(be_i32(v)[0], be_i32(v)[1], be_i32(v)[2], be_i32(v)[3]) == v,
{
    lemma_be32_roundtrip(v as u32);
    lemma_i32_cast_roundtrip(v);
}

/// Decoding the encoding of a signed 16-bit value gives it back.
pub proof fn lemma_be_i16_roundtrip(v: i16)
    ensures
        be_i16(v).len() == 2,
        i16v(be_i16(v)[0], be_i16(v)[1]) == v,
{
    lemma_be16_roundtrip(v as u16);
    lemma_i16_cast_roundtrip(v);
}

/// Append the big-endian encoding of an unsigned 16-bit value.
pub fn push_be16(out: &mut Vec<u8>, v: u16)
    ensures
        final(out)@ == old(out)@ + be16(v),
{
    out.push((v / 0x100) as u8);
    out.push((v % 0x100) as u8);
    assert(out@ =~= old(out)@ + be16(v));
}

/// Append the big-endian encoding of an unsigned 32-bit value.
pub fn push_be32(out: &mut Vec<u8>, v: u32)
    ensures
        final(out)@ == old(out)@ + be32(v),
{
    out.push((v / 0x1000000) as u8);
    out.push((v / 0x10000 % 0x100) as u8);
    out.push((v / 0x100 % 0x100) as u8);
    out.push((v % 0x100) as u8);
    assert(out@ =~= old(out)@ + be32(v));
}

/// Append the big-endian encoding of a signed 16-bit value.
pub fn push_be_i16(out: &mut Vec<u8>, v: i16)
    ensures
        final(out)@ == old(out)@ + be_i16(v),
{
    push_be16(out, v as u16);
}

/// Append the big-endian encoding of a signed 32-bit value.
pub fn push_be_i32(out: &mut Vec<u8>, v: i32)
    ensures
        final(out)@ == old(out)@ + be_i32(v),
{
    push_be32(out, v as u32);
}

} // verus!
