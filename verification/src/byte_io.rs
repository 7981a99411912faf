//! Fixed-width integer reads from byte buffers.
//!
//! Reads go through `scroll`'s `Pread::pread_with`, which fails (instead of
//! panicking) when the value does not fit in the buffer past the offset.

use scroll::Pread;
use vstd::prelude::*;

verus! {

/// Little-endian value of the two bytes at `off`.
pub open spec fn le16(b: Seq<u8>, off: int) -> int {
    b[off] + b[off + 1] * 0x100
}

/// Big-endian value of the two bytes at `off`.
pub open spec fn be16(b: Seq<u8>, off: int) -> int {
    b[off] * 0x100 + b[off + 1]
}

/// Little-endian value of the four bytes at `off`.
pub open spec fn le32(b: Seq<u8>, off: int) -> int {
    le16(b, off) + le16(b, off + 2) * 0x1_0000
}

/// Big-endian value of the four bytes at `off`.
pub open spec fn be32(b: Seq<u8>, off: int) -> int {
    be16(b, off) * 0x1_0000 + be16(b, off + 2)
}

/// Little-endian value of the eight bytes at `off`.
pub open spec fn le64(b: Seq<u8>, off: int) -> int {
    le32(b, off) + le32(b, off + 4) * 0x1_0000_0000
}

/// Big-endian value of the eight bytes at `off`.
pub open spec fn be64(b: Seq<u8>, off: int) -> int {
    be32(b, off) * 0x1_0000_0000 + be32(b, off + 4)
}

/// The `u16` stored at `off` in the given byte order.
pub open spec fn u16_at(b: Seq<u8>, off: int, big_endian: bool) -> u16 {
    (if big_endian { be16(b, off) } else { le16(b, off) }) as u16
}

/// The `u32` stored at `off` in the given byte order.
pub open spec fn u32_at(b: Seq<u8>, off: int, big_endian: bool) -> u32 {
    (if big_endian { be32(b, off) } else { le32(b, off) }) as u32
}

/// The `u64` stored at `off` in the given byte order.
pub open spec fn u64_at(b: Seq<u8>, off: int, big_endian: bool) -> u64 {
    (if big_endian { be64(b, off) } else { le64(b, off) }) as u64
}

/// The two's-complement `i32` stored at `off` in the given byte order.
pub open spec fn i32_at(b: Seq<u8>, off: int, big_endian: bool) -> i32 {
    let u = if big_endian { be32(b, off) } else { le32(b, off) };
    (if u >= 0x8000_0000 { u - 0x1_0000_0000 } else { u }) as i32
}

/// Whether `len` bytes starting at `off` lie inside a buffer of `total` bytes.
pub open spec fn fits(off: int, len: int, total: int) -> bool {
    0 <= off && off + len <= total
}

/// Reads a byte at `offset` with `scroll`.
///
/// `Pread::pread_with` yields the byte exactly when `offset` is inside the
/// buffer.
#[verifier::external_body]
pub(crate) fn read_u8(data: &[u8], offset: usize) -> (r: Option<u8>)
    ensures
        r == (if offset < data@.len() {
            Some(data@[offset as int])
        } else {
            None::<u8>
        }),
{
    data.pread_with::<u8>(offset, scroll::LE).ok()
}

/// Reads a `u16` at `offset` with `scroll`.
///
/// `Pread::pread_with` yields the value exactly when two bytes are available
/// past `offset`; the value is assembled in the requested byte order.
#[verifier::external_body]
pub(crate) fn read_u16(data: &[u8], offset: usize, little_endian: bool) -> (r: Option<u16>)
    ensures
        r == (if fits(offset as int, 2, data@.len() as int) {
            Some(u16_at(data@, offset as int, !little_endian))
        } else {
            None::<u16>
        }),
{
    data.pread_with::<u16>(offset, scroll::Endian::from(little_endian)).ok()
}

/// Reads a `u32` at `offset` with `scroll`.
///
/// `Pread::pread_with` yields the value exactly when four bytes are available
/// past `offset`; the value is assembled in the requested byte order.
#[verifier::external_body]
pub(crate) fn read_u32(data: &[u8], offset: usize, little_endian: bool) -> (r: Option<u32>)
    ensures
        r == (if fits(offset as int, 4, data@.len() as int) {
            Some(u32_at(data@, offset as int, !little_endian))
        } else {
            None::<u32>
        }),
{
    data.pread_with::<u32>(offset, scroll::Endian::from(little_endian)).ok()
}

/// Reads a `u64` at `offset` with `scroll`.
///
/// `Pread::pread_with` yields the value exactly when eight bytes are available
/// past `offset`; the value is assembled in the requested byte order.
#[verifier::external_body]
pub(crate) fn read_u64(data: &[u8], offset: usize, little_endian: bool) -> (r: Option<u64>)
    ensures
        r == (if fits(offset as int, 8, data@.len() as int) {
            Some(u64_at(data@, offset as int, !little_endian))
        } else {
            None::<u64>
        }),
{
    data.pread_with::<u64>(offset, scroll::Endian::from(little_endian)).ok()
}

/// Reads an `i32` at `offset` with `scroll`.
///
/// `Pread::pread_with` yields the value exactly when four bytes are available
/// past `offset`; the bits are read in the requested byte order and taken as
/// a two's-complement number.
#[verifier::external_body]
pub(crate) fn read_i32(data: &[u8], offset: usize, little_endian: bool) -> (r: Option<i32>)
    ensures
        r == (if fits(offset as int, 4, data@.len() as int) {
            Some(i32_at(data@, offset as int, !little_endian))
        } else {
            None::<i32>
        }),
{
    data.pread_with::<i32>(offset, scroll::Endian::from(little_endian)).ok()
}

} // verus!
