//! Byte-order helpers: reading fixed-width integers out of a byte buffer in
//! either byte order, serializing them little-endian for the TIFF writer,
//! and copying sub-ranges of a buffer.
use vstd::prelude::*;

verus! {

/// The u16 stored at offset `off` of `d` in the given byte order
/// (`le` true for little-endian).
pub open spec fn spec_u16_at(d: Seq<u8>, off: int, le: bool) -> u16 {
    if le {
        (d[off] + d[off + 1] * 0x100) as u16
    } else {
        (d[off + 1] + d[off] * 0x100) as u16
    }
}

/// The u32 stored at offset `off` of `d` in the given byte order.
pub open spec fn spec_u32_at(d: Seq<u8>, off: int, le: bool) -> u32 {
    if le {
        (d[off] + d[off + 1] * 0x100 + d[off + 2] * 0x1_0000 + d[off + 3] * 0x100_0000) as u32
    } else {
        (d[off + 3] + d[off + 2] * 0x100 + d[off + 1] * 0x1_0000 + d[off] * 0x100_0000) as u32
    }
}

/// The u64 stored at offset `off` of `d` in the given byte order.
pub open spec fn spec_u64_at(d: Seq<u8>, off: int, le: bool) -> u64 {
    if le {
        (spec_u32_at(d, off, true) + spec_u32_at(d, off + 4, true) * 0x1_0000_0000) as u64
    } else {
        (spec_u32_at(d, off + 4, false) + spec_u32_at(d, off, false) * 0x1_0000_0000) as u64
    }
}

pub fn read_u16_at(d: &Vec<u8>, off: usize, le: bool) -> (r: u16)
    requires
        off + 2 <= d@.len(),
    ensures
        r == spec_u16_at(d@, off as int, le),
{
    let n = d.len();
    let b0 = d[off] as u16;
    let b1 = d[off + 1] as u16;
    if le {
        b0 + b1 * 0x100
    } else {
        b1 + b0 * 0x100
    }
}

pub fn read_u32_at(d: &Vec<u8>, off: usize, le: bool) -> (r: u32)
    requires
        off + 4 <= d@.len(),
    ensures
        r == spec_u32_at(d@, off as int, le),
{
    let n = d.len();
    let b0 = d[off] as u32;
    let b1 = d[off + 1] as u32;
    let b2 = d[off + 2] as u32;
    let b3 = d[off + 3] as u32;
    if le {
        b0 + b1 * 0x100 + b2 * 0x1_0000 + b3 * 0x100_0000
    } else {
        b3 + b2 * 0x100 + b1 * 0x1_0000 + b0 * 0x100_0000
    }
}

pub fn read_u64_at(d: &Vec<u8>, off: usize, le: bool) -> (r: u64)
    requires
        off + 8 <= d@.len(),
    ensures
        r == spec_u64_at(d@, off as int, le),
{
    let n = d.len();
    let lo_word = read_u32_at(d, off, le) as u64;
    let hi_word = read_u32_at(d, off + 4, le) as u64;
    if le {
        lo_word + hi_word * 0x1_0000_0000
    } else {
        lo_word * 0x1_0000_0000 + hi_word
    }
}

/// The two little-endian bytes of a u16.
pub open spec fn le16(x: u16) -> Seq<u8> {
    seq![(x % 0x100) as u8, (x / 0x100) as u8]
}

/// The four little-endian bytes of a u32.
pub open spec fn le32(x: u32) -> Seq<u8> {
    seq![
        (x % 0x100) as u8,
        ((x / 0x100) % 0x100) as u8,
        ((x / 0x1_0000) % 0x100) as u8,
        ((x / 0x100_0000) % 0x100) as u8,
    ]
}

/// Reading back two little-endian bytes recovers the u16.
pub proof fn lemma_le16_roundtrip(d: Seq<u8>, off: int, x: u16)
    requires
        0 <= off,
        off + 2 <= d.len(),
        d[off] == le16(x)[0],
        d[off + 1] == le16(x)[1],
    ensures
        spec_u16_at(d, off, true) == x,
{
}

/// Reading back four little-endian bytes recovers the u32.
pub proof fn lemma_le32_roundtrip(d: Seq<u8>, off: int, x: u32)
    requires
        0 <= off,
        off + 4 <= d.len(),
        d[off] == le32(x)[0],
        d[off + 1] == le32(x)[1],
        d[off + 2] == le32(x)[2],
        d[off + 3] == le32(x)[3],
    ensures
        spec_u32_at(d, off, true) == x,
{
}

pub fn push_u16_le(out: &mut Vec<u8>, x: u16)
    ensures
        final(out)@ == old(out)@ + le16(x),
{
    out.push((x % 0x100) as u8);
    out.push((x / 0x100) as u8);
    proof {
        assert(out@ =~= old(out)@ + le16(x));
    }
}

pub fn push_u32_le(out: &mut Vec<u8>, x: u32)
    ensures
        final(out)@ == old(out)@ + le32(x),
{
    out.push((x % 0x100) as u8);
    out.push(((x / 0x100) % 0x100) as u8);
    out.push(((x / 0x1_0000) % 0x100) as u8);
    out.push(((x / 0x100_0000) % 0x100) as u8);
    proof {
        assert(out@ =~= old(out)@ + le32(x));
    }
}

/// Copies `d[off .. off + len]` into a fresh vector.
pub fn copy_range(d: &Vec<u8>, off: usize, len: usize) -> (r: Vec<u8>)
    requires
        off + len <= d@.len(),
    ensures
        r@ == d@.subrange(off as int, off + len),
{
    let n = d.len();
    let mut r: Vec<u8> = Vec::new();
    let mut i: usize = 0;
    while i < len
        invariant
            off + len <= n == d@.len(),
            i <= len,
            r@ == d@.subrange(off as int, off + i),
        decreases len - i,
    {
        r.push(d[off + i]);
        proof {
            assert(r@ =~= d@.subrange(off as int, off + i + 1));
        }
        i = i + 1;
    }
    r
}

/// Appends `src` to `out`.
pub fn append_bytes(out: &mut Vec<u8>, src: &Vec<u8>)
    ensures
        final(out)@ == old(out)@ + src@,
{
    let mut i: usize = 0;
    while i < src.len()
        invariant
            i <= src@.len(),
            out@ == old(out)@ + src@.subrange(0, i as int),
        decreases src@.len() - i,
    {
        out.push(src[i]);
        proof {
            assert(out@ =~= old(out)@ + src@.subrange(0, i + 1));
        }
        i = i + 1;
    }
    proof {
        assert(src@.subrange(0, src@.len() as int) =~= src@);
    }
}

} // verus!
