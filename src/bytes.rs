//! Fixed-width integers read from a byte buffer under a chosen byte order.

use vstd::prelude::*;

verus! {

/// Byte order of multi-byte fields.
#[derive(Clone, Copy, Debug, PartialEq, Eq, Structural)]
pub enum Endian {
    Little,
    Big,
}

/// The value of two bytes, first byte least significant.
pub open spec fn le16(b0: u8, b1: u8) -> int {
    b0 as int + 256 * b1 as int
}

/// The value of four bytes, first byte least significant.
pub open spec fn le32(b0: u8, b1: u8, b2: u8, b3: u8) -> int {
    b0 as int + 256 * b1 as int + 65536 * b2 as int + 16777216 * b3 as int
}

/// The 16-bit field at `off` of `b`, read in byte order `e`.
pub open spec fn u16_at(b: Seq<u8>, off: int, e: Endian) -> int {
    match e {
        Endian::Little => le16(b[off], b[off + 1]),
        Endian::Big => le16(b[off + 1], b[off]),
    }
}

/// The 32-bit field at `off` of `b`, read in byte order `e`.
pub open spec fn u32_at(b: Seq<u8>, off: int, e: Endian) -> int {
    match e {
        Endian::Little => le32(b[off], b[off + 1], b[off + 2], b[off + 3]),
        Endian::Big => le32(b[off + 3], b[off + 2], b[off + 1], b[off]),
    }
}

/// Reads the 16-bit field at `off`.
pub fn read_u16(b: &[u8], off: usize, e: Endian) -> (r: u16)
    requires
        off + 2 <= b@.len(),
    ensures
        r as int == u16_at(b@, off as int, e),
{
    assert(b@.len() == b.len());
    let (lo, hi) = match e {
        Endian::Little => (b[off], b[off + 1]),
        Endian::Big => (b[off + 1], b[off]),
    };
    lo as u16 + 256 * (hi as u16)
}

/// Reads the 32-bit field at `off`.
pub fn read_u32(b: &[u8], off: usize, e: Endian) -> (r: u32)
    requires
        off + 4 <= b@.len(),
    ensures
        r as int == u32_at(b@, off as int, e),
{
    assert(b@.len() == b.len());
    let (b0, b1, b2, b3) = match e {
        Endian::Little => (b[off], b[off + 1], b[off + 2], b[off + 3]),
        Endian::Big => (b[off + 3], b[off + 2], b[off + 1], b[off]),
    };
    b0 as u32 + 256 * (b1 as u32) + 65536 * (b2 as u32) + 16777216 * (b3 as u32)
}

} // verus!
