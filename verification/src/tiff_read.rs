//! A minimal classic/BigTIFF metadata reader: walks IFD0 only, recovering the
//! embedded ICC profile (tag 34675), the resolution rationals (tags 282 and
//! 283) and the resolution unit (tag 296). Both byte orders and both
//! addressing widths (4-byte classic, 8-byte BigTIFF) are understood; a
//! BigTIFF declaring any other offset width is rejected, never misparsed.
use vstd::prelude::*;

use crate::endian::{
    copy_range, read_u16_at, read_u32_at, read_u64_at, spec_u16_at, spec_u32_at, spec_u64_at,
};
use crate::meta::{MetaView, Rational, ResUnit, TiffMeta};

verus! {

/// Failures of the TIFF reader and writer.
#[derive(Debug, Clone, Copy, PartialEq, Eq, Structural)]
pub enum TiffError {
    /// A read past the end of the data: the offset and length of the
    /// attempted read.
    Io { offset: u64, len: u64 },
    /// The two-byte endianness marker is neither of the two recognized
    /// values.
    BadEndianMarker,
    /// The magic number is neither 42 (classic) nor 43 (BigTIFF).
    BadMagic { magic: u16 },
    /// A BigTIFF declaring an offset width other than 8 bytes.
    UnsupportedOffsetSize { size: u16 },
    /// Writer only: the image and metadata do not fit the 32-bit offsets of
    /// a classic TIFF.
    TooLarge,
}

/// Size in bytes of one element of a recognized TIFF wire type; unrecognized
/// types yield `None` and their entries are silently skipped.
pub open spec fn spec_type_size(ty: u16) -> Option<u64> {
    if ty == 1 {
        Some(1u64)  // BYTE
    } else if ty == 3 {
        Some(2u64)  // SHORT
    } else if ty == 4 {
        Some(4u64)  // LONG
    } else if ty == 5 {
        Some(8u64)  // RATIONAL
    } else if ty == 7 {
        Some(1u64)  // UNDEFINED
    } else if ty == 16 {
        Some(8u64)  // LONG8
    } else {
        None
    }
}

/// count times size, saturating at the largest u64 as the reader's byte
/// length computation does.
pub open spec fn spec_sat_mul(count: u64, tsz: u64) -> u64 {
    if count * tsz > u64::MAX {
        u64::MAX
    } else {
        (count * tsz) as u64
    }
}

/// The value bytes of one directory entry: inline out of the entry's value
/// field when they fit its capacity (4 bytes classic, 8 bytes BigTIFF), else
/// read at the entry's offset field; a read past the end of the data fails.
pub open spec fn spec_entry_bytes(
    d: Seq<u8>,
    big: bool,
    ent_off: int,
    bytes_len: u64,
    voff: u64,
) -> Result<Seq<u8>, TiffError> {
    let cap: u64 = if big { 8 } else { 4 };
    let vfield = ent_off + (if big { 12int } else { 8int });
    if bytes_len == 0 {
        Ok(Seq::empty())
    } else if bytes_len <= cap {
        Ok(d.subrange(vfield, vfield + bytes_len))
    } else if voff + bytes_len > d.len() {
        Err(TiffError::Io { offset: voff, len: bytes_len })
    } else {
        Ok(d.subrange(voff as int, voff + bytes_len))
    }
}

/// The resolution unit named by tag 296: 2 is inch, 3 is centimeter, any
/// other value means no absolute unit.
pub open spec fn spec_unit_of(u: u16) -> ResUnit {
    if u == 2 {
        ResUnit::Inch
    } else if u == 3 {
        ResUnit::Centimeter
    } else {
        ResUnit::NoUnit
    }
}

/// Folds one recognized entry's value bytes into the metadata. The ICC tag
/// keeps nonempty raw bytes; the resolution tags decode a rational and
/// discard it when the denominator is zero; the unit tag maps the wire
/// value; anything else leaves the metadata unchanged.
pub open spec fn spec_apply_tag(m: MetaView, tag: u16, bytes: Seq<u8>, le: bool) -> MetaView {
    if tag == 34675 {
        if bytes.len() > 0 {
            MetaView { icc: Some(bytes), ..m }
        } else {
            m
        }
    } else if tag == 282 {
        if bytes.len() >= 8 {
            let numer = spec_u32_at(bytes, 0, le);
            let denom = spec_u32_at(bytes, 4, le);
            if denom != 0 {
                MetaView { x_res: Some(Rational { n: numer, d: denom }), ..m }
            } else {
                m
            }
        } else {
            m
        }
    } else if tag == 283 {
        if bytes.len() >= 8 {
            let numer = spec_u32_at(bytes, 0, le);
            let denom = spec_u32_at(bytes, 4, le);
            if denom != 0 {
                MetaView { y_res: Some(Rational { n: numer, d: denom }), ..m }
            } else {
                m
            }
        } else {
            m
        }
    } else if tag == 296 {
        if bytes.len() >= 2 {
            MetaView { unit: Some(spec_unit_of(spec_u16_at(bytes, 0, le))), ..m }
        } else {
            m
        }
    } else {
        m
    }
}

/// Whether a tag is one the reader materializes value bytes for.
pub open spec fn spec_recognized_tag(tag: u16) -> bool {
    tag == 34675 || tag == 282 || tag == 283 || tag == 296
}

/// Walks `n` directory entries starting at `ent_off`, folding recognized
/// tags into `m`. Entry size is 12 bytes classic, 20 bytes BigTIFF. An entry
/// extending past the end of the data fails; an entry of unrecognized type
/// is skipped without reading its value.
pub open spec fn spec_walk(
    d: Seq<u8>,
    le: bool,
    big: bool,
    ent_off: int,
    n: nat,
    m: MetaView,
) -> Result<MetaView, TiffError>
    decreases n,
{
    if n == 0 {
        Ok(m)
    } else {
        let esz: int = if big { 20 } else { 12 };
        if ent_off + esz > d.len() {
            Err(TiffError::Io { offset: ent_off as u64, len: esz as u64 })
        } else {
            let tag = spec_u16_at(d, ent_off, le);
            let ty = spec_u16_at(d, ent_off + 2, le);
            let count: u64 = if big {
                spec_u64_at(d, ent_off + 4, le)
            } else {
                spec_u32_at(d, ent_off + 4, le) as u64
            };
            let voff: u64 = if big {
                spec_u64_at(d, ent_off + 12, le)
            } else {
                spec_u32_at(d, ent_off + 8, le) as u64
            };
            match spec_type_size(ty) {
                None => spec_walk(d, le, big, ent_off + esz, (n - 1) as nat, m),
                Some(tsz) => {
                    let bytes_len = spec_sat_mul(count, tsz);
                    if spec_recognized_tag(tag) {
                        match spec_entry_bytes(d, big, ent_off, bytes_len, voff) {
                            Err(e) => Err(e),
                            Ok(bytes) => spec_walk(
                                d,
                                le,
                                big,
                                ent_off + esz,
                                (n - 1) as nat,
                                spec_apply_tag(m, tag, bytes, le),
                            ),
                        }
                    } else {
                        spec_walk(d, le, big, ent_off + esz, (n - 1) as nat, m)
                    }
                }
            }
        }
    }
}

/// Metadata with nothing recovered yet.
pub open spec fn spec_meta_empty() -> MetaView {
    MetaView { icc: None, x_res: None, y_res: None, unit: None }
}

/// The whole reader on a byte image of a file: header (endianness marker,
/// magic, IFD0 offset; BigTIFF additionally its offset-size field), then the
/// walk of IFD0. The first 16 bytes must be present, as the reader's fixed
/// header read demands.
pub open spec fn spec_parse_tiff(d: Seq<u8>) -> Result<MetaView, TiffError> {
    if d.len() < 16 {
        Err(TiffError::Io { offset: 0, len: 16 })
    } else {
        let le_marker = d[0] == 0x49 && d[1] == 0x49;
        let be_marker = d[0] == 0x4D && d[1] == 0x4D;
        if !le_marker && !be_marker {
            Err(TiffError::BadEndianMarker)
        } else {
            let le = le_marker;
            let magic = spec_u16_at(d, 2, le);
            if magic == 42 {
                let ifd = spec_u32_at(d, 4, le) as u64;
                if ifd + 2 > d.len() {
                    Err(TiffError::Io { offset: ifd, len: 2 })
                } else {
                    let n = spec_u16_at(d, ifd as int, le);
                    spec_walk(d, le, false, ifd + 2, n as nat, spec_meta_empty())
                }
            } else if magic == 43 {
                let off_size = spec_u16_at(d, 4, le);
                if off_size != 8 {
                    Err(TiffError::UnsupportedOffsetSize { size: off_size })
                } else {
                    let ifd = spec_u64_at(d, 8, le);
                    if ifd + 8 > d.len() {
                        Err(TiffError::Io { offset: ifd, len: 8 })
                    } else {
                        let n = spec_u64_at(d, ifd as int, le);
                        spec_walk(d, le, true, ifd + 8, n as nat, spec_meta_empty())
                    }
                }
            } else {
                Err(TiffError::BadMagic { magic })
            }
        }
    }
}

/// Saturating multiply of the element count by the element size.
fn sat_mul(count: u64, tsz: u64) -> (r: u64)
    requires
        1 <= tsz,
    ensures
        r == spec_sat_mul(count, tsz),
{
    if count > u64::MAX / tsz {
        proof {
            assert(count * tsz > u64::MAX) by (nonlinear_arith)
                requires
                    1 <= tsz,
                    count > u64::MAX / tsz,
                    u64::MAX / tsz == u64::MAX as int / tsz as int,
            ;
        }
        u64::MAX
    } else {
        proof {
            assert(count * tsz <= u64::MAX) by (nonlinear_arith)
                requires
                    1 <= tsz,
                    count <= u64::MAX / tsz,
                    u64::MAX / tsz == u64::MAX as int / tsz as int,
            ;
        }
        count * tsz
    }
}

/// Size of one element of a recognized wire type.
fn type_size(ty: u16) -> (r: Option<u64>)
    ensures
        r == spec_type_size(ty),
{
    match ty {
        1 => Some(1),
        3 => Some(2),
        4 => Some(4),
        5 => Some(8),
        7 => Some(1),
        16 => Some(8),
        _ => None,
    }
}

/// Materializes one recognized entry's value bytes.
fn entry_bytes(
    d: &Vec<u8>,
    big: bool,
    ent_off: usize,
    bytes_len: u64,
    voff: u64,
) -> (r: Result<Vec<u8>, TiffError>)
    requires
        ent_off + (if big { 20int } else { 12int }) <= d@.len(),
    ensures
        match (r, spec_entry_bytes(d@, big, ent_off as int, bytes_len, voff)) {
            (Ok(v), Ok(s)) => v@ == s,
            (Err(e1), Err(e2)) => e1 == e2,
            _ => false,
        },
{
    let n = d.len();
    let cap: u64 = if big { 8 } else { 4 };
    let vfield: usize = ent_off + (if big { 12 } else { 8 });
    if bytes_len == 0 {
        Ok(Vec::new())
    } else if bytes_len <= cap {
        Ok(copy_range(d, vfield, bytes_len as usize))
    } else if bytes_len > n as u64 || voff > n as u64 - bytes_len {
        Err(TiffError::Io { offset: voff, len: bytes_len })
    } else {
        Ok(copy_range(d, voff as usize, bytes_len as usize))
    }
}

/// Folds one recognized entry's value bytes into the metadata.
fn apply_tag(m: TiffMeta, tag: u16, bytes: Vec<u8>, le: bool) -> (r: TiffMeta)
    ensures
        r@ == spec_apply_tag(m@, tag, bytes@, le),
{
    let blen = bytes.len();
    if tag == 34675 {
        if blen > 0 {
            TiffMeta { icc: Some(bytes), ..m }
        } else {
            m
        }
    } else if tag == 282 {
        if blen >= 8 {
            let numer = read_u32_at(&bytes, 0, le);
            let denom = read_u32_at(&bytes, 4, le);
            if denom != 0 {
                TiffMeta { x_res: Some(Rational { n: numer, d: denom }), ..m }
            } else {
                m
            }
        } else {
            m
        }
    } else if tag == 283 {
        if blen >= 8 {
            let numer = read_u32_at(&bytes, 0, le);
            let denom = read_u32_at(&bytes, 4, le);
            if denom != 0 {
                TiffMeta { y_res: Some(Rational { n: numer, d: denom }), ..m }
            } else {
                m
            }
        } else {
            m
        }
    } else if tag == 296 {
        if blen >= 2 {
            let u = read_u16_at(&bytes, 0, le);
            let unit = if u == 2 {
                ResUnit::Inch
            } else if u == 3 {
                ResUnit::Centimeter
            } else {
                ResUnit::NoUnit
            };
            TiffMeta { unit: Some(unit), ..m }
        } else {
            m
        }
    } else {
        m
    }
}

/// Walks `n` IFD0 entries starting at `ent_off`, returning exactly what the
/// specification walk returns.
fn walk_entries(d: &Vec<u8>, le: bool, big: bool, start: u64, n: u64) -> (r: Result<
    TiffMeta,
    TiffError,
>)
    requires
        start <= d@.len(),
    ensures
        match (r, spec_walk(d@, le, big, start as int, n as nat, spec_meta_empty())) {
            (Ok(m), Ok(mv)) => m@ == mv,
            (Err(e1), Err(e2)) => e1 == e2,
            _ => false,
        },
{
    let dlen = d.len();
    let esz: u64 = if big { 20 } else { 12 };
    let mut m = TiffMeta::empty();
    let mut ent_off: u64 = start;
    let mut i: u64 = 0;
    while i < n
        invariant
            dlen == d@.len(),
            esz == (if big { 20int } else { 12int }),
            i <= n,
            ent_off <= dlen,
            spec_walk(d@, le, big, start as int, n as nat, spec_meta_empty()) == spec_walk(
                d@,
                le,
                big,
                ent_off as int,
                (n - i) as nat,
                m@,
            ),
        decreases n - i,
    {
        if esz > dlen as u64 || ent_off > dlen as u64 - esz {
            return Err(TiffError::Io { offset: ent_off, len: esz });
        }
        let eo = ent_off as usize;
        let tag = read_u16_at(d, eo, le);
        let ty = read_u16_at(d, eo + 2, le);
        let count: u64 = if big {
            read_u64_at(d, eo + 4, le)
        } else {
            read_u32_at(d, eo + 4, le) as u64
        };
        let voff: u64 = if big {
            read_u64_at(d, eo + 12, le)
        } else {
            read_u32_at(d, eo + 8, le) as u64
        };
        match type_size(ty) {
            None => {},
            Some(tsz) => {
                let bytes_len = sat_mul(count, tsz);
                if tag == 34675 || tag == 282 || tag == 283 || tag == 296 {
                    match entry_bytes(d, big, eo, bytes_len, voff) {
                        Err(e) => {
                            return Err(e);
                        },
                        Ok(bytes) => {
                            m = apply_tag(m, tag, bytes, le);
                        },
                    }
                }
            },
        }
        ent_off = ent_off + esz;
        i = i + 1;
    }
    Ok(m)
}

/// Parses IFD0 metadata out of the byte image of a classic or BigTIFF file.
/// Returns exactly the value of the specification parser: the embedded ICC
/// bytes, resolution rationals and unit where present; `BadEndianMarker` or
/// `BadMagic` on an unrecognized header; `UnsupportedOffsetSize` for a
/// BigTIFF whose offset width is not 8; `Io` with the offset and length of
/// any read past the end of the data.
pub fn parse_tiff_meta(data: &Vec<u8>) -> (r: Result<TiffMeta, TiffError>)
    ensures
        match (r, spec_parse_tiff(data@)) {
            (Ok(m), Ok(mv)) => m@ == mv,
            (Err(e1), Err(e2)) => e1 == e2,
            _ => false,
        },
{
    let dlen = data.len();
    if dlen < 16 {
        return Err(TiffError::Io { offset: 0, len: 16 });
    }
    let le_marker = data[0] == 0x49 && data[1] == 0x49;
    let be_marker = data[0] == 0x4D && data[1] == 0x4D;
    if !le_marker && !be_marker {
        return Err(TiffError::BadEndianMarker);
    }
    let le = le_marker;
    let magic = read_u16_at(data, 2, le);
    if magic == 42 {
        let ifd = read_u32_at(data, 4, le) as u64;
        if ifd > dlen as u64 - 2 {
            return Err(TiffError::Io { offset: ifd, len: 2 });
        }
        let n = read_u16_at(data, ifd as usize, le);
        walk_entries(data, le, false, ifd + 2, n as u64)
    } else if magic == 43 {
        let off_size = read_u16_at(data, 4, le);
        if off_size != 8 {
            return Err(TiffError::UnsupportedOffsetSize { size: off_size });
        }
        let ifd = read_u64_at(data, 8, le);
        if ifd > dlen as u64 - 8 {
            return Err(TiffError::Io { offset: ifd, len: 8 });
        }
        let n = read_u64_at(data, ifd as usize, le);
        walk_entries(data, le, true, ifd + 8, n)
    } else {
        Err(TiffError::BadMagic { magic })
    }
}

/// The walk never records an empty ICC profile: whatever metadata it
/// returns, a present ICC entry holds at least one byte.
pub proof fn lemma_walk_icc_nonempty(
    d: Seq<u8>,
    le: bool,
    big: bool,
    ent_off: int,
    n: nat,
    m: MetaView,
)
    requires
        match m.icc {
            Some(b) => b.len() > 0,
            None => true,
        },
    ensures
        match spec_walk(d, le, big, ent_off, n, m) {
            Ok(mv) => match mv.icc {
                Some(b) => b.len() > 0,
                None => true,
            },
            Err(_) => true,
        },
    decreases n,
{
    if n > 0 {
        let esz: int = if big { 20 } else { 12 };
        if ent_off + esz <= d.len() {
            let tag = spec_u16_at(d, ent_off, le);
            let ty = spec_u16_at(d, ent_off + 2, le);
            let count: u64 = if big {
                spec_u64_at(d, ent_off + 4, le)
            } else {
                spec_u32_at(d, ent_off + 4, le) as u64
            };
            let voff: u64 = if big {
                spec_u64_at(d, ent_off + 12, le)
            } else {
                spec_u32_at(d, ent_off + 8, le) as u64
            };
            match spec_type_size(ty) {
                None => {
                    lemma_walk_icc_nonempty(d, le, big, ent_off + esz, (n - 1) as nat, m);
                },
                Some(tsz) => {
                    let bytes_len = spec_sat_mul(count, tsz);
                    if spec_recognized_tag(tag) {
                        match spec_entry_bytes(d, big, ent_off, bytes_len, voff) {
                            Err(_) => {},
                            Ok(bytes) => {
                                lemma_walk_icc_nonempty(
                                    d,
                                    le,
                                    big,
                                    ent_off + esz,
                                    (n - 1) as nat,
                                    spec_apply_tag(m, tag, bytes, le),
                                );
                            },
                        }
                    } else {
                        lemma_walk_icc_nonempty(d, le, big, ent_off + esz, (n - 1) as nat, m);
                    }
                },
            }
        }
    }
}

/// A parsed file never reports an empty ICC profile.
pub proof fn lemma_parse_icc_nonempty(d: Seq<u8>)
    ensures
        match spec_parse_tiff(d) {
            Ok(mv) => match mv.icc {
                Some(b) => b.len() > 0,
                None => true,
            },
            Err(_) => true,
        },
{
    if d.len() >= 16 {
        let le_marker = d[0] == 0x49 && d[1] == 0x49;
        let be_marker = d[0] == 0x4D && d[1] == 0x4D;
        if le_marker || be_marker {
            let le = le_marker;
            let magic = spec_u16_at(d, 2, le);
            if magic == 42 {
                let ifd = spec_u32_at(d, 4, le) as u64;
                if ifd + 2 <= d.len() {
                    let n = spec_u16_at(d, ifd as int, le);
                    lemma_walk_icc_nonempty(d, le, false, ifd + 2, n as nat, spec_meta_empty());
                }
            } else if magic == 43 {
                let off_size = spec_u16_at(d, 4, le);
                if off_size == 8 {
                    let ifd = spec_u64_at(d, 8, le);
                    if ifd + 8 <= d.len() {
                        let n = spec_u64_at(d, ifd as int, le);
                        lemma_walk_icc_nonempty(d, le, true, ifd + 8, n as nat, spec_meta_empty());
                    }
                }
            }
        }
    }
}

} // verus!
