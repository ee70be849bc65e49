//! Little-endian byte output for GPU buffers.
//!
//! The vertex and index buffers are byte-exact: their contracts say which
//! bytes stand at which offset.  The actual byte writing is done by the
//! `byteorder` crate through the trusted wrappers below.

use byteorder::WriteBytesExt;
use vstd::prelude::*;

verus! {

/// The two little-endian bytes of `v`, low byte first.
pub open spec fn u16_le_bytes(v: u16) -> Seq<u8> {
    seq![(v & 0xff) as u8, ((v >> 8) & 0xff) as u8]
}

/// The four little-endian bytes of `v`, low byte first.
pub open spec fn u32_le_bytes(v: u32) -> Seq<u8> {
    seq![
        (v & 0xff) as u8,
        ((v >> 8) & 0xff) as u8,
        ((v >> 16) & 0xff) as u8,
        ((v >> 24) & 0xff) as u8,
    ]
}

/// Relies on byteorder's `WriteBytesExt::write_u8`: appends exactly the
/// byte `v` to `out` (writing to a `Vec` never fails).
#[verifier::external_body]
pub fn put_u8(out: &mut Vec<u8>, v: u8)
    ensures
        final(out)@ == old(out)@.push(v),
{
    let _ = out.write_u8(v);
}

/// Relies on byteorder's `WriteBytesExt::write_u16` with `LittleEndian`:
/// appends exactly the two little-endian bytes of `v` to `out`.
#[verifier::external_body]
pub fn put_u16_le(out: &mut Vec<u8>, v: u16)
    ensures
        final(out)@ == old(out)@ + u16_le_bytes(v),
{
    let _ = out.write_u16::<byteorder::LittleEndian>(v);
}

/// Relies on byteorder's `WriteBytesExt::write_u32` with `LittleEndian`:
/// appends exactly the four little-endian bytes of `v` to `out`.
#[verifier::external_body]
pub fn put_u32_le(out: &mut Vec<u8>, v: u32)
    ensures
        final(out)@ == old(out)@ + u32_le_bytes(v),
{
    let _ = out.write_u32::<byteorder::LittleEndian>(v);
}

} // verus!
