//! Reading fixed-width integers out of byte buffers under a byte order
//! chosen at run time.
//!
//! The tag-cache files store every number as four bytes in the byte order
//! of the device that wrote them; the order is detected once per session
//! and threaded through every decode call as an explicit [`Endian`] value.

use vstd::prelude::*;

verus! {

/// The byte order a tag-cache file was written in.
#[derive(Debug, Clone, Copy, PartialEq, Eq, Structural)]
pub enum Endian {
    Little,
    Big,
}

/// The unsigned value of four bytes laid out in the given order.
pub open spec fn spec_u32_bytes(endian: Endian, b0: u8, b1: u8, b2: u8, b3: u8) -> int {
    match endian {
        Endian::Little => b0 as int + 256 * (b1 as int) + 65536 * (b2 as int) + 16777216 * (
        b3 as int),
        Endian::Big => b3 as int + 256 * (b2 as int) + 65536 * (b1 as int) + 16777216 * (
        b0 as int),
    }
}

/// The unsigned 32-bit value stored at `off` in `bytes`.
pub open spec fn spec_u32_at(endian: Endian, bytes: Seq<u8>, off: int) -> int {
    spec_u32_bytes(endian, bytes[off], bytes[off + 1], bytes[off + 2], bytes[off + 3])
}

/// The two's-complement signed reading of the same four bytes.
pub open spec fn spec_i32_of_unsigned(v: int) -> int {
    if v >= 0x8000_0000 {
        v - 0x1_0000_0000
    } else {
        v
    }
}

/// The signed 32-bit value stored at `off` in `bytes`.
pub open spec fn spec_i32_at(endian: Endian, bytes: Seq<u8>, off: int) -> int {
    spec_i32_of_unsigned(spec_u32_at(endian, bytes, off))
}

/// Decoding is a function of the bytes alone: a little-endian buffer and
/// its byte-for-byte mirror read under big-endian order hold the same
/// value, whatever machine does the reading.
pub proof fn lemma_endian_mirror(b0: u8, b1: u8, b2: u8, b3: u8)
    ensures
        spec_u32_bytes(Endian::Little, b0, b1, b2, b3) == spec_u32_bytes(
            Endian::Big,
            b3,
            b2,
            b1,
            b0,
        ),
        spec_i32_of_unsigned(spec_u32_bytes(Endian::Little, b0, b1, b2, b3))
            == spec_i32_of_unsigned(spec_u32_bytes(Endian::Big, b3, b2, b1, b0)),
{
}

pub fn read_u32_at(endian: Endian, bytes: &[u8], off: usize) -> (v: u32)
    requires
        off + 4 <= bytes@.len(),
    ensures
        v as int == spec_u32_at(endian, bytes@, off as int),
{
    let b0 = bytes[off];
    let b1 = bytes[off + 1];
    let b2 = bytes[off + 2];
    let b3 = bytes[off + 3];
    match endian {
        Endian::Little => b0 as u32 + 256 * (b1 as u32) + 65536 * (b2 as u32) + 16777216 * (
        b3 as u32),
        Endian::Big => b3 as u32 + 256 * (b2 as u32) + 65536 * (b1 as u32) + 16777216 * (
        b0 as u32),
    }
}

pub fn read_i32_at(endian: Endian, bytes: &[u8], off: usize) -> (v: i32)
    requires
        off + 4 <= bytes@.len(),
    ensures
        v as int == spec_i32_at(endian, bytes@, off as int),
{
    let u = read_u32_at(endian, bytes, off);
    if u >= 0x8000_0000 {
        -((0xFFFF_FFFFu32 - u) as i32) - 1
    } else {
        u as i32
    }
}

} // verus!
