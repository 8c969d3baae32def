//! Fixed-width big-endian reads out of a byte buffer.
//!
//! Every multi-byte integer in the file format is big-endian. These
//! helpers read one value at a caller-tracked offset and advance it.

use vstd::prelude::*;

verus! {

/// The two-byte big-endian integer at `off`.
pub open spec fn spec_be16(s: Seq<u8>, off: int) -> nat {
    (s[off] * 256 + s[off + 1]) as nat
}

/// The four-byte big-endian integer at `off`.
pub open spec fn spec_be32(s: Seq<u8>, off: int) -> nat {
    (((s[off] * 256 + s[off + 1]) * 256 + s[off + 2]) * 256 + s[off + 3]) as nat
}

/// Copies `buffer[start..end]` into a fresh vector.
pub fn copy_range(buffer: &[u8], start: usize, end: usize) -> (v: Vec<u8>)
    requires
        start <= end <= buffer@.len(),
    ensures
        v@ == buffer@.subrange(start as int, end as int),
{
    let mut v: Vec<u8> = Vec::new();
    let mut i = start;
    while i < end
        invariant
            start <= i <= end <= buffer@.len(),
            v@ =~= buffer@.subrange(start as int, i as int),
        decreases end - i,
    {
        v.push(buffer[i]);
        proof {
            assert(v@ =~= buffer@.subrange(start as int, i + 1));
        }
        i = i + 1;
    }
    proof {
        assert(v@ =~= buffer@.subrange(start as int, end as int));
    }
    v
}

/// Appends `src[start..end]` to `dst`.
pub fn append_range(dst: &mut Vec<u8>, src: &[u8], start: usize, end: usize)
    requires
        start <= end <= src@.len(),
    ensures
        final(dst)@ == old(dst)@ + src@.subrange(start as int, end as int),
{
    let ghost base = dst@;
    let mut i = start;
    while i < end
        invariant
            start <= i <= end <= src@.len(),
            dst@ =~= base + src@.subrange(start as int, i as int),
        decreases end - i,
    {
        dst.push(src[i]);
        proof {
            assert(dst@ =~= base + src@.subrange(start as int, i + 1));
        }
        i = i + 1;
    }
    proof {
        assert(dst@ =~= base + src@.subrange(start as int, end as int));
    }
}

/// Reads one byte and advances the offset past it.
pub fn read_u8(buffer: &[u8], offset: &mut usize) -> (v: u8)
    requires
        *old(offset) < buffer@.len(),
    ensures
        v == buffer@[*old(offset) as int],
        *final(offset) == *old(offset) + 1,
{
    let v = buffer[*offset];
    *offset = *offset + 1;
    v
}

/// Reads a two-byte big-endian integer and advances the offset past it.
pub fn read_u16(buffer: &[u8], offset: &mut usize) -> (v: u16)
    requires
        *old(offset) + 2 <= buffer@.len(),
    ensures
        v as nat == spec_be16(buffer@, *old(offset) as int),
        *final(offset) == *old(offset) + 2,
{
    let hi = buffer[*offset];
    let lo = buffer[*offset + 1];
    *offset = *offset + 2;
    (hi as u16) * 256 + (lo as u16)
}

/// Reads a four-byte big-endian integer and advances the offset past it.
pub fn read_u32(buffer: &[u8], offset: &mut usize) -> (v: u32)
    requires
        *old(offset) + 4 <= buffer@.len(),
    ensures
        v as nat == spec_be32(buffer@, *old(offset) as int),
        *final(offset) == *old(offset) + 4,
{
    let b0 = buffer[*offset];
    let b1 = buffer[*offset + 1];
    let b2 = buffer[*offset + 2];
    let b3 = buffer[*offset + 3];
    *offset = *offset + 4;
    (((b0 as u32) * 256 + (b1 as u32)) * 256 + (b2 as u32)) * 256 + (b3 as u32)
}

} // verus!
