//! Pixel types: row-major RGB triples at 16 and 8 bits per channel, and
//! their serialization to raw sample bytes for the TIFF writer.
use vstd::prelude::*;

use crate::endian::le16;

verus! {

/// One 16-bit RGB pixel (channel domain 0..65535).
#[derive(Debug, Clone, Copy, PartialEq, Eq, Structural)]
pub struct Rgb16 {
    pub r: u16,
    pub g: u16,
    pub b: u16,
}

/// One 8-bit RGB pixel.
#[derive(Debug, Clone, Copy, PartialEq, Eq, Structural)]
pub struct Rgb8 {
    pub r: u8,
    pub g: u8,
    pub b: u8,
}

/// The three sample bytes of an 8-bit pixel in channel order.
pub open spec fn spec_rgb8_bytes(p: Rgb8) -> Seq<u8> {
    seq![p.r, p.g, p.b]
}

/// The six sample bytes of a 16-bit pixel, each channel little-endian.
pub open spec fn spec_rgb16_bytes_le(p: Rgb16) -> Seq<u8> {
    le16(p.r) + le16(p.g) + le16(p.b)
}

/// The raw sample bytes of a whole 8-bit buffer in order.
pub open spec fn spec_rgb8_buf_bytes(pix: Seq<Rgb8>) -> Seq<u8>
    decreases pix.len(),
{
    if pix.len() == 0 {
        Seq::empty()
    } else {
        spec_rgb8_buf_bytes(pix.drop_last()) + spec_rgb8_bytes(pix.last())
    }
}

/// The raw sample bytes of a whole 16-bit buffer in order, little-endian.
pub open spec fn spec_rgb16_buf_bytes_le(pix: Seq<Rgb16>) -> Seq<u8>
    decreases pix.len(),
{
    if pix.len() == 0 {
        Seq::empty()
    } else {
        spec_rgb16_buf_bytes_le(pix.drop_last()) + spec_rgb16_bytes_le(pix.last())
    }
}

pub proof fn lemma_rgb8_buf_bytes_len(pix: Seq<Rgb8>)
    ensures
        spec_rgb8_buf_bytes(pix).len() == pix.len() * 3,
    decreases pix.len(),
{
    if pix.len() > 0 {
        lemma_rgb8_buf_bytes_len(pix.drop_last());
    }
}

pub proof fn lemma_rgb16_buf_bytes_len(pix: Seq<Rgb16>)
    ensures
        spec_rgb16_buf_bytes_le(pix).len() == pix.len() * 6,
    decreases pix.len(),
{
    if pix.len() > 0 {
        lemma_rgb16_buf_bytes_len(pix.drop_last());
    }
}

/// Serializes an 8-bit pixel buffer to its raw sample bytes.
pub fn rgb8_bytes(pix: &Vec<Rgb8>) -> (r: Vec<u8>)
    ensures
        r@ == spec_rgb8_buf_bytes(pix@),
        r@.len() == pix@.len() * 3,
{
    let mut out: Vec<u8> = Vec::new();
    let mut i: usize = 0;
    while i < pix.len()
        invariant
            i <= pix@.len(),
            out@ == spec_rgb8_buf_bytes(pix@.subrange(0, i as int)),
            out@.len() == i * 3,
        decreases pix@.len() - i,
    {
        let p = pix[i];
        out.push(p.r);
        out.push(p.g);
        out.push(p.b);
        proof {
            let pre = pix@.subrange(0, i as int);
            let cur = pix@.subrange(0, i + 1);
            assert(cur.drop_last() =~= pre);
            assert(cur.last() == pix@[i as int]);
            assert(out@ =~= spec_rgb8_buf_bytes(pre) + spec_rgb8_bytes(pix@[i as int]));
        }
        i = i + 1;
    }
    proof {
        assert(pix@.subrange(0, pix@.len() as int) =~= pix@);
    }
    out
}

/// Serializes a 16-bit pixel buffer to its raw little-endian sample bytes.
pub fn rgb16_bytes_le(pix: &Vec<Rgb16>) -> (r: Vec<u8>)
    ensures
        r@ == spec_rgb16_buf_bytes_le(pix@),
        r@.len() == pix@.len() * 6,
{
    let mut out: Vec<u8> = Vec::new();
    let mut i: usize = 0;
    while i < pix.len()
        invariant
            i <= pix@.len(),
            out@ == spec_rgb16_buf_bytes_le(pix@.subrange(0, i as int)),
            out@.len() == i * 6,
        decreases pix@.len() - i,
    {
        let p = pix[i];
        crate::endian::push_u16_le(&mut out, p.r);
        crate::endian::push_u16_le(&mut out, p.g);
        crate::endian::push_u16_le(&mut out, p.b);
        proof {
            let pre = pix@.subrange(0, i as int);
            let cur = pix@.subrange(0, i + 1);
            assert(cur.drop_last() =~= pre);
            assert(cur.last() == pix@[i as int]);
            assert(out@ =~= spec_rgb16_buf_bytes_le(pre) + spec_rgb16_bytes_le(pix@[i as int]));
        }
        i = i + 1;
    }
    proof {
        assert(pix@.subrange(0, pix@.len() as int) =~= pix@);
    }
    out
}

} // verus!
