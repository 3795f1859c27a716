//! Byte-level primitives shared by the object parser and the relocator:
//! little-endian reads out of a byte buffer, two's-complement
//! reinterpretation, and in-place byte splicing.

use vstd::prelude::*;
use vstd::bytes::*;
use vstd::slice::slice_subrange;

verus! {

/// The 16-bit little-endian value stored at `off`.
pub open spec fn u16le(b: Seq<u8>, off: int) -> u16 {
    spec_u16_from_le_bytes(b.subrange(off, off + 2))
}

/// The 32-bit little-endian value stored at `off`.
pub open spec fn u32le(b: Seq<u8>, off: int) -> u32 {
    spec_u32_from_le_bytes(b.subrange(off, off + 4))
}

/// The 64-bit little-endian value stored at `off`.
pub open spec fn u64le(b: Seq<u8>, off: int) -> u64 {
    spec_u64_from_le_bytes(b.subrange(off, off + 8))
}

/// The signed value whose 64-bit two's-complement representation is `v`.
pub open spec fn as_signed64(v: u64) -> int {
    if v >= 0x8000_0000_0000_0000 {
        v - 0x1_0000_0000_0000_0000
    } else {
        v as int
    }
}

/// `s` with the bytes at `off .. off + repl.len()` replaced by `repl`.
pub open spec fn splice(s: Seq<u8>, off: int, repl: Seq<u8>) -> Seq<u8> {
    s.subrange(0, off) + repl + s.subrange(off + repl.len(), s.len() as int)
}

pub fn read_u16(b: &Vec<u8>, off: usize) -> (r: u16)
    requires
        off + 2 <= b.len(),
    ensures
        r == u16le(b@, off as int),
{
    let s = slice_subrange(b.as_slice(), off, off + 2);
    u16_from_le_bytes(s)
}

pub fn read_u32(b: &Vec<u8>, off: usize) -> (r: u32)
    requires
        off + 4 <= b.len(),
    ensures
        r == u32le(b@, off as int),
{
    let s = slice_subrange(b.as_slice(), off, off + 4);
    u32_from_le_bytes(s)
}

pub fn read_u64(b: &Vec<u8>, off: usize) -> (r: u64)
    requires
        off + 8 <= b.len(),
    ensures
        r == u64le(b@, off as int),
{
    let s = slice_subrange(b.as_slice(), off, off + 8);
    u64_from_le_bytes(s)
}

/// Reads a 64-bit little-endian field and reinterprets it as a signed value.
pub fn read_i64(b: &Vec<u8>, off: usize) -> (r: i64)
    requires
        off + 8 <= b.len(),
    ensures
        r as int == as_signed64(u64le(b@, off as int)),
{
    let u = read_u64(b, off);
    if u <= 0x7fff_ffff_ffff_ffff {
        u as i64
    } else {
        -((u64::MAX - u) as i64) - 1
    }
}

/// A copy of a byte buffer with the same contents.
pub fn clone_bytes(v: &Vec<u8>) -> (r: Vec<u8>)
    ensures
        r@ == v@,
{
    let r = v.clone();
    proof {
        assert(r@ =~= v@);
    }
    r
}

/// Overwrites `data[off .. off + src.len()]` with the bytes of `src`.
pub fn write_bytes_at(data: &mut Vec<u8>, off: usize, src: &Vec<u8>)
    requires
        off + src.len() <= old(data).len(),
    ensures
        final(data)@ == splice(old(data)@, off as int, src@),
{
    let n = src.len();
    let mut i: usize = 0;
    while i < n
        invariant
            n == src.len(),
            off + n <= old(data).len(),
            data.len() == old(data).len(),
            0 <= i <= n,
            forall|j: int| 0 <= j < data.len() && !(off <= j < off + i) ==> data@[j] == old(data)@[j],
            forall|j: int| 0 <= j < i ==> data@[off + j] == src@[j],
        decreases n - i,
    {
        data.set(off + i, src[i]);
        i += 1;
    }
    proof {
        assert(data@ =~= splice(old(data)@, off as int, src@));
    }
}

} // verus!
