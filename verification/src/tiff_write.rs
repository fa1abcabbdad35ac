//! A streaming classic-TIFF writer with exact tag-level control. Emits a
//! little-endian classic TIFF holding one strip-organized RGB image, the
//! resolution tags (282, 283 as rationals, 296 as the unit), and, when
//! present, the ICC profile under tag 34675 with wire type UNDEFINED — not
//! BYTE — which downstream validators require. The layout is pinned down
//! byte for byte by `spec_tiff_file`, and reading the output back with this
//! crate's own reader provably recovers the ICC bytes and the normalized
//! resolution.
use vstd::prelude::*;

use crate::endian::{le16, le32, push_u16_le, push_u32_le, append_bytes, lemma_le16_roundtrip,
    lemma_le32_roundtrip, spec_u16_at, spec_u32_at};
use crate::meta::{MetaView, Rational, ResUnit, TiffMeta, spec_norm_unit, spec_norm_x, spec_norm_y,
    normalize_resolution};
use crate::pixel::{Rgb8, Rgb16, rgb8_bytes, rgb16_bytes_le, spec_rgb8_buf_bytes,
    spec_rgb16_buf_bytes_le};
use crate::tiff_read::{TiffError, spec_parse_tiff, spec_walk, spec_meta_empty, spec_unit_of,
    spec_apply_tag, spec_entry_bytes, spec_type_size, spec_sat_mul, lemma_parse_icc_nonempty};

verus! {

/// `k` zero bytes.
pub open spec fn zpad(k: nat) -> Seq<u8>
    decreases k,
{
    if k == 0 {
        Seq::empty()
    } else {
        zpad((k - 1) as nat) + seq![0u8]
    }
}

pub proof fn lemma_zpad_len(k: nat)
    ensures
        zpad(k).len() == k,
    decreases k,
{
    if k > 0 {
        lemma_zpad_len((k - 1) as nat);
    }
}

/// The 12 bytes of one classic directory entry, little-endian.
pub open spec fn spec_entry12(tag: u16, ty: u16, count: u32, val: u32) -> Seq<u8> {
    le16(tag) + le16(ty) + le32(count) + le32(val)
}

/// Number of directory entries: twelve, plus one for the ICC tag.
pub open spec fn sp_ne(icc: Option<Seq<u8>>) -> int {
    if icc is Some {
        13
    } else {
        12
    }
}

/// Offset of the bits-per-sample block: right after the header, the entry
/// count, the entries, and the next-IFD pointer.
pub open spec fn sp_off_bps(icc: Option<Seq<u8>>) -> int {
    14 + 12 * sp_ne(icc)
}

pub open spec fn sp_off_xres(icc: Option<Seq<u8>>) -> int {
    sp_off_bps(icc) + 6
}

pub open spec fn sp_off_yres(icc: Option<Seq<u8>>) -> int {
    sp_off_xres(icc) + 8
}

pub open spec fn sp_off_arrays(icc: Option<Seq<u8>>) -> int {
    sp_off_yres(icc) + 8
}

/// Length of each external strip array: one LONG per strip, but a single
/// strip is stored inline in its entry, with no external array at all.
pub open spec fn sp_arr_len(s: nat) -> int {
    if s > 1 {
        4 * (s as int)
    } else {
        0
    }
}

pub open spec fn sp_off_scnt(icc: Option<Seq<u8>>, s: nat) -> int {
    sp_off_arrays(icc) + sp_arr_len(s)
}

pub open spec fn sp_off_icc(icc: Option<Seq<u8>>, s: nat) -> int {
    sp_off_arrays(icc) + 2 * sp_arr_len(s)
}

/// Whether the ICC bytes go to an external block (more than the 4 inline
/// bytes of a classic entry).
pub open spec fn sp_icc_ext(icc: Option<Seq<u8>>) -> bool {
    match icc {
        Some(b) => b.len() > 4,
        None => false,
    }
}

pub open spec fn sp_off_pix(icc: Option<Seq<u8>>, s: nat) -> int {
    sp_off_icc(icc, s) + (if sp_icc_ext(icc) {
        icc.unwrap().len() as int
    } else {
        0
    })
}

/// Total file size.
pub open spec fn sp_total(icc: Option<Seq<u8>>, s: nat, pix_len: nat) -> int {
    sp_off_pix(icc, s) + pix_len
}

/// Number of strips covering `h` rows at `rps` rows per strip.
pub open spec fn sp_strips(h: nat, rps: nat) -> nat
    recommends
        rps > 0,
{
    ((h + rps - 1) as int / rps as int) as nat
}

/// The ICC directory entry: tag 34675, wire type UNDEFINED (7), the byte
/// count, and either the bytes inline (zero-padded to 4) or the offset of
/// the external block. Empty when no ICC is embedded.
pub open spec fn sp_icc_entry(icc: Option<Seq<u8>>, off_icc: int) -> Seq<u8> {
    match icc {
        None => Seq::empty(),
        Some(b) => le16(34675) + le16(7) + le32(b.len() as u32) + (if b.len() > 4 {
            le32(off_icc as u32)
        } else {
            b + zpad((4 - b.len()) as nat)
        }),
    }
}

/// The external ICC block: the bytes themselves when external, else nothing.
pub open spec fn sp_icc_block(icc: Option<Seq<u8>>) -> Seq<u8> {
    if sp_icc_ext(icc) {
        icc.unwrap()
    } else {
        Seq::empty()
    }
}

/// The whole output file, byte for byte: header (II, magic 42, IFD0 at 8),
/// entry count, the twelve fixed entries in ascending tag order, the ICC
/// entry when present, the zero next-IFD pointer, then the external blocks:
/// bits per sample, the two resolution rationals, the strip offset and
/// byte-count arrays (when more than one strip), the ICC block, and the
/// pixel strips.
#[verifier::opaque]
pub open spec fn spec_tiff_file(
    w: u32,
    h: u32,
    bps: u16,
    rps: u32,
    s: u32,
    unit_code: u16,
    xr: Rational,
    yr: Rational,
    icc: Option<Seq<u8>>,
    soff: Seq<u8>,
    scnt: Seq<u8>,
    pix: Seq<u8>,
) -> Seq<u8> {
    let soff_val: u32 = if s == 1 {
        sp_off_pix(icc, s as nat) as u32
    } else {
        sp_off_arrays(icc) as u32
    };
    let scnt_val: u32 = if s == 1 {
        pix.len() as u32
    } else {
        sp_off_scnt(icc, s as nat) as u32
    };
    seq![0x49u8, 0x49u8] + le16(42) + le32(8) + le16(sp_ne(icc) as u16) + spec_entry12(
        256,
        4,
        1,
        w,
    ) + spec_entry12(257, 4, 1, h) + spec_entry12(258, 3, 3, sp_off_bps(icc) as u32) + spec_entry12(
        259,
        3,
        1,
        1,
    ) + spec_entry12(262, 3, 1, 2) + spec_entry12(273, 4, s, soff_val) + spec_entry12(
        277,
        3,
        1,
        3,
    ) + spec_entry12(278, 4, 1, rps) + spec_entry12(279, 4, s, scnt_val) + spec_entry12(
        282,
        5,
        1,
        sp_off_xres(icc) as u32,
    ) + spec_entry12(283, 5, 1, sp_off_yres(icc) as u32) + spec_entry12(
        296,
        3,
        1,
        unit_code as u32,
    ) + sp_icc_entry(icc, sp_off_icc(icc, s as nat)) + le32(0) + le16(bps) + le16(bps) + le16(bps)
        + le32(xr.n) + le32(xr.d) + le32(yr.n) + le32(yr.d) + soff + scnt + sp_icc_block(icc) + pix
}

/// Appends one classic directory entry.
fn push_entry(out: &mut Vec<u8>, tag: u16, ty: u16, count: u32, val: u32)
    ensures
        final(out)@ == old(out)@ + spec_entry12(tag, ty, count, val),
{
    push_u16_le(out, tag);
    push_u16_le(out, ty);
    push_u32_le(out, count);
    push_u32_le(out, val);
    proof {
        assert(out@ =~= old(out)@ + spec_entry12(tag, ty, count, val));
    }
}

/// The view of an optional borrowed byte vector.
pub open spec fn sp_opt_bytes(icc: Option<&Vec<u8>>) -> Option<Seq<u8>> {
    match icc {
        Some(b) => Some(b@),
        None => None,
    }
}

/// Rows covered by strip `i`: the fixed rows-per-strip, shortened in the
/// final strip.
pub open spec fn sp_strip_rows(h: int, rps: int, i: int) -> int {
    if (i + 1) * rps <= h {
        rps
    } else {
        h - i * rps
    }
}

/// The first `n` entries of the strip-offset array: one little-endian LONG
/// per strip, each the file offset of that strip's first pixel byte.
pub open spec fn sp_soff_seq(off_pix: int, rps: int, row_bytes: int, n: nat) -> Seq<u8>
    decreases n,
{
    if n == 0 {
        Seq::empty()
    } else {
        sp_soff_seq(off_pix, rps, row_bytes, (n - 1) as nat) + le32(
            (off_pix + (n - 1) * rps * row_bytes) as u32,
        )
    }
}

/// The first `n` entries of the strip byte-count array: rows in the strip
/// times bytes per row.
pub open spec fn sp_scnt_seq(h: int, rps: int, row_bytes: int, n: nat) -> Seq<u8>
    decreases n,
{
    if n == 0 {
        Seq::empty()
    } else {
        sp_scnt_seq(h, rps, row_bytes, (n - 1) as nat) + le32(
            (sp_strip_rows(h, rps, n - 1) * row_bytes) as u32,
        )
    }
}

pub proof fn lemma_strip_seq_len(off_pix: int, h: int, rps: int, row_bytes: int, n: nat)
    ensures
        sp_soff_seq(off_pix, rps, row_bytes, n).len() == 4 * n,
        sp_scnt_seq(h, rps, row_bytes, n).len() == 4 * n,
    decreases n,
{
    if n > 0 {
        lemma_strip_seq_len(off_pix, h, rps, row_bytes, (n - 1) as nat);
    }
}

/// The strip-offset array as emitted: absent for a single strip, whose
/// offset sits inline in its directory entry.
pub open spec fn sp_soff(icc: Option<Seq<u8>>, s: nat, rps: int, row_bytes: int) -> Seq<u8> {
    if s > 1 {
        sp_soff_seq(sp_off_pix(icc, s), rps, row_bytes, s)
    } else {
        Seq::empty()
    }
}

/// The strip byte-count array as emitted: absent for a single strip.
pub open spec fn sp_scnt(h: int, s: nat, rps: int, row_bytes: int) -> Seq<u8> {
    if s > 1 {
        sp_scnt_seq(h, rps, row_bytes, s)
    } else {
        Seq::empty()
    }
}

/// The external strip offset and byte-count arrays: one LONG per strip,
/// none at all for a single strip. Offsets and byte counts are pinned
/// entry for entry.
fn strip_arrays(s64: u64, h: u32, rps: u32, row_bytes: u64, off_pix: u128) -> (r: (Vec<u8>, Vec<u8>))
    requires
        s64 <= h,
        rps >= 1,
        s64 > 1 ==> (s64 - 1) * rps < h,
        off_pix + h * row_bytes <= u32::MAX,
    ensures
        r.0@ == (if s64 > 1 {
            sp_soff_seq(off_pix as int, rps as int, row_bytes as int, s64 as nat)
        } else {
            Seq::<u8>::empty()
        }),
        r.1@ == (if s64 > 1 {
            sp_scnt_seq(h as int, rps as int, row_bytes as int, s64 as nat)
        } else {
            Seq::<u8>::empty()
        }),
        r.0@.len() == sp_arr_len(s64 as nat),
        r.1@.len() == sp_arr_len(s64 as nat),
{
    let mut soff_vec: Vec<u8> = Vec::new();
    let mut scnt_vec: Vec<u8> = Vec::new();
    if s64 > 1 {
        let mut i: u64 = 0;
        while i < s64
            invariant
                s64 <= h,
                rps >= 1,
                s64 > 1,
                (s64 - 1) * rps < h,
                off_pix + h * row_bytes <= u32::MAX,
                i <= s64,
                soff_vec@ == sp_soff_seq(off_pix as int, rps as int, row_bytes as int, i as nat),
                scnt_vec@ == sp_scnt_seq(h as int, rps as int, row_bytes as int, i as nat),
                soff_vec@.len() == 4 * i,
                scnt_vec@.len() == 4 * i,
            decreases s64 - i,
        {
            proof {
                assert((i as int) * (rps as int) < h) by (nonlinear_arith)
                    requires
                        i <= s64 - 1,
                        rps >= 1,
                        (s64 - 1) * rps < h,
                ;
            }
            let start_row: u64 = i * (rps as u64);
            let rows_here: u64 = if start_row + rps as u64 <= h as u64 {
                rps as u64
            } else {
                h as u64 - start_row
            };
            proof {
                assert((i as int + 1) * (rps as int) == (i as int) * (rps as int) + rps)
                    by (nonlinear_arith);
                assert(rows_here == sp_strip_rows(h as int, rps as int, i as int));
                assert((start_row as int) * (row_bytes as int) <= (h as int) * (row_bytes as int))
                    by (nonlinear_arith)
                    requires
                        start_row <= h,
                ;
                assert((rows_here as int) * (row_bytes as int) <= (h as int) * (row_bytes as int))
                    by (nonlinear_arith)
                    requires
                        rows_here <= h,
                ;
            }
            let count_here: u128 = (rows_here as u128) * (row_bytes as u128);
            let offset_here: u128 = off_pix + (start_row as u128) * (row_bytes as u128);
            push_u32_le(&mut soff_vec, offset_here as u32);
            push_u32_le(&mut scnt_vec, count_here as u32);
            proof {
                assert(soff_vec@ == sp_soff_seq(
                    off_pix as int,
                    rps as int,
                    row_bytes as int,
                    (i + 1) as nat,
                ));
                assert(scnt_vec@ == sp_scnt_seq(
                    h as int,
                    rps as int,
                    row_bytes as int,
                    (i + 1) as nat,
                ));
            }
            i = i + 1;
        }
    }
    proof {
        if s64 > 1 {
            lemma_strip_seq_len(off_pix as int, h as int, rps as int, row_bytes as int, s64 as nat);
        }
    }
    (soff_vec, scnt_vec)
}

/// Builds the complete classic-TIFF byte stream, or fails with `TooLarge`
/// exactly when the layout does not fit 32-bit offsets.
#[verifier::rlimit(100)]
fn build_classic_tiff(
    w: u32,
    h: u32,
    bps: u16,
    rps: u32,
    row_bytes: u64,
    pixb: &Vec<u8>,
    icc: Option<&Vec<u8>>,
    xr: Rational,
    yr: Rational,
    unit_code: u16,
) -> (r: Result<Vec<u8>, TiffError>)
    requires
        h >= 1,
        rps >= 1,
        pixb@.len() == h * row_bytes,
    ensures
        (r is Err) <==> sp_total(
            sp_opt_bytes(icc),
            sp_strips(h as nat, rps as nat),
            pixb@.len(),
        ) > u32::MAX,
        match r {
            Ok(out) => out@ == spec_tiff_file(
                w,
                h,
                bps,
                rps,
                sp_strips(h as nat, rps as nat) as u32,
                unit_code,
                xr,
                yr,
                sp_opt_bytes(icc),
                sp_soff(
                    sp_opt_bytes(icc),
                    sp_strips(h as nat, rps as nat),
                    rps as int,
                    row_bytes as int,
                ),
                sp_scnt(h as int, sp_strips(h as nat, rps as nat), rps as int, row_bytes as int),
                pixb@,
            ),
            Err(e) => e == TiffError::TooLarge,
        },
{
    let ghost icc_v = sp_opt_bytes(icc);
    let s64: u64 = ((h as u64) + (rps as u64) - 1) / (rps as u64);
    proof {
        assert(s64 == sp_strips(h as nat, rps as nat));
        assert(s64 >= 1) by {
            assert((h + rps - 1) as int / rps as int >= 1) by (nonlinear_arith)
                requires
                    h >= 1,
                    rps >= 1,
            ;
        }
        assert(s64 <= h as u64) by {
            assert((h + rps - 1) as int / rps as int <= h as int) by (nonlinear_arith)
                requires
                    h >= 1,
                    rps >= 1,
            ;
        }
    }
    let ghost s = s64 as nat;
    let ne: u64 = if icc.is_some() {
        13
    } else {
        12
    };
    let off_bps: u64 = 14 + 12 * ne;
    let off_xres: u64 = off_bps + 6;
    let off_yres: u64 = off_xres + 8;
    let off_arrays: u64 = off_yres + 8;
    let arr_len: u64 = if s64 > 1 {
        4 * s64
    } else {
        0
    };
    let off_scnt: u64 = off_arrays + arr_len;
    let off_icc: u64 = off_arrays + 2 * arr_len;
    let icc_len: u64 = match icc {
        Some(b) => b.len() as u64,
        None => 0,
    };
    let icc_ext: bool = icc.is_some() && icc_len > 4;
    let off_pix: u128 = off_icc as u128 + (if icc_ext {
        icc_len as u128
    } else {
        0
    });
    let total: u128 = off_pix + pixb.len() as u128;
    proof {
        assert(off_bps == sp_off_bps(icc_v));
        assert(arr_len == sp_arr_len(s));
        assert(off_pix == sp_off_pix(icc_v, s));
        assert(total == sp_total(icc_v, s, pixb@.len()));
    }
    if total > u32::MAX as u128 {
        return Err(TiffError::TooLarge);
    }
    let off_pix32: u32 = off_pix as u32;

    proof {
        vstd::arithmetic::div_mod::lemma_fundamental_div_mod((h + rps - 1) as int, rps as int);
        vstd::arithmetic::div_mod::lemma_mod_bound((h + rps - 1) as int, rps as int);
        if s64 > 1 {
            assert((s64 as int - 1) * (rps as int) < h) by (nonlinear_arith)
                requires
                    (h + rps - 1) as int == (rps as int) * ((h + rps - 1) as int / (rps as int)) + (
                    h + rps - 1) as int % (rps as int),
                    0 <= (h + rps - 1) as int % (rps as int) < rps as int,
                    s64 == (h + rps - 1) as int / (rps as int),
                    rps >= 1,
                    h >= 1,
            ;
        }
        assert(off_pix + h * row_bytes <= u32::MAX);
    }
    let (soff_vec, scnt_vec) = strip_arrays(s64, h, rps, row_bytes, off_pix);
    proof {
        assert(soff_vec@.len() == sp_arr_len(s));
        assert(scnt_vec@.len() == sp_arr_len(s));
    }

    let soff_val: u32 = if s64 == 1 {
        off_pix32
    } else {
        off_arrays as u32
    };
    let scnt_val: u32 = if s64 == 1 {
        pixb.len() as u32
    } else {
        off_scnt as u32
    };

    let mut out: Vec<u8> = Vec::new();
    out.push(0x49);
    out.push(0x49);
    proof {
        assert(out@ =~= seq![0x49u8, 0x49u8]);
    }
    push_u16_le(&mut out, 42);
    push_u32_le(&mut out, 8);
    push_u16_le(&mut out, ne as u16);
    push_entry(&mut out, 256, 4, 1, w);
    push_entry(&mut out, 257, 4, 1, h);
    push_entry(&mut out, 258, 3, 3, off_bps as u32);
    push_entry(&mut out, 259, 3, 1, 1);
    push_entry(&mut out, 262, 3, 1, 2);
    push_entry(&mut out, 273, 4, s64 as u32, soff_val);
    push_entry(&mut out, 277, 3, 1, 3);
    push_entry(&mut out, 278, 4, 1, rps);
    push_entry(&mut out, 279, 4, s64 as u32, scnt_val);
    push_entry(&mut out, 282, 5, 1, off_xres as u32);
    push_entry(&mut out, 283, 5, 1, off_yres as u32);
    push_entry(&mut out, 296, 3, 1, unit_code as u32);
    // The ICC entry, when present.
    match icc {
        None => {
            proof {
                assert(out@ + sp_icc_entry(icc_v, sp_off_icc(icc_v, s)) =~= out@);
            }
        },
        Some(b) => {
            let ghost before = out@;
            push_u16_le(&mut out, 34675);
            push_u16_le(&mut out, 7);
            push_u32_le(&mut out, b.len() as u32);
            if icc_ext {
                push_u32_le(&mut out, off_icc as u32);
            } else {
                let ghost mid = out@;
                append_bytes(&mut out, b);
                let pad: usize = 4 - b.len();
                let mut j: usize = 0;
                proof {
                    assert(out@ =~= mid + b@ + zpad(0));
                }
                while j < pad
                    invariant
                        j <= pad,
                        out@ == mid + b@ + zpad(j as nat),
                    decreases pad - j,
                {
                    out.push(0);
                    proof {
                        assert(out@ =~= mid + b@ + zpad((j + 1) as nat));
                    }
                    j = j + 1;
                }
            }
            proof {
                assert(out@ =~= before + sp_icc_entry(icc_v, sp_off_icc(icc_v, s)));
            }
        },
    }
    push_u32_le(&mut out, 0);
    push_u16_le(&mut out, bps);
    push_u16_le(&mut out, bps);
    push_u16_le(&mut out, bps);
    push_u32_le(&mut out, xr.n);
    push_u32_le(&mut out, xr.d);
    push_u32_le(&mut out, yr.n);
    push_u32_le(&mut out, yr.d);
    append_bytes(&mut out, &soff_vec);
    append_bytes(&mut out, &scnt_vec);
    match icc {
        Some(b) => {
            if icc_ext {
                append_bytes(&mut out, b);
            } else {
                proof {
                    assert(out@ + sp_icc_block(icc_v) =~= out@);
                }
            }
        },
        None => {
            proof {
                assert(out@ + sp_icc_block(icc_v) =~= out@);
            }
        },
    }
    append_bytes(&mut out, pixb);
    proof {
        assert(soff_vec@ == sp_soff(icc_v, s, rps as int, row_bytes as int));
        assert(scnt_vec@ == sp_scnt(h as int, s, rps as int, row_bytes as int));
        reveal(spec_tiff_file);
        assert(out@ == spec_tiff_file(
            w,
            h,
            bps,
            rps,
            s64 as u32,
            unit_code,
            xr,
            yr,
            icc_v,
            soff_vec@,
            scnt_vec@,
            pixb@,
        ));
    }
    Ok(out)
}

/// The ICC bytes the reader recovers from a written file: the embedded
/// bytes when nonempty, else nothing.
pub open spec fn spec_kept_icc(icc: Option<Seq<u8>>) -> Option<Seq<u8>> {
    match icc {
        Some(b) => if b.len() > 0 {
            Some(b)
        } else {
            None
        },
        None => None,
    }
}

/// Extraction of the four fields of a directory entry out of the file.
proof fn lemma_entry_fields(f: Seq<u8>, off: int, tag: u16, ty: u16, count: u32, val: u32)
    requires
        0 <= off,
        off + 12 <= f.len(),
        f.subrange(off, off + 12) == spec_entry12(tag, ty, count, val),
    ensures
        spec_u16_at(f, off, true) == tag,
        spec_u16_at(f, off + 2, true) == ty,
        spec_u32_at(f, off + 4, true) == count,
        spec_u32_at(f, off + 8, true) == val,
{
    let e = spec_entry12(tag, ty, count, val);
    let sub = f.subrange(off, off + 12);
    assert(sub[0] == f[off + 0] && sub[1] == f[off + 1] && sub[2] == f[off + 2] && sub[3] == f[off
        + 3] && sub[4] == f[off + 4] && sub[5] == f[off + 5] && sub[6] == f[off + 6] && sub[7]
        == f[off + 7] && sub[8] == f[off + 8] && sub[9] == f[off + 9] && sub[10] == f[off + 10]
        && sub[11] == f[off + 11]);
    assert(f[off] == e[0]);
    assert(f[off + 1] == e[1]);
    assert(f[off + 2] == e[2]);
    assert(f[off + 3] == e[3]);
    assert(f[off + 4] == e[4]);
    assert(f[off + 5] == e[5]);
    assert(f[off + 6] == e[6]);
    assert(f[off + 7] == e[7]);
    assert(f[off + 8] == e[8]);
    assert(f[off + 9] == e[9]);
    assert(f[off + 10] == e[10]);
    assert(f[off + 11] == e[11]);
    assert(f[off] == le16(tag)[0]);
    assert(f[off + 1] == le16(tag)[1]);
    assert(f[off + 2] == le16(ty)[0]);
    assert(f[off + 3] == le16(ty)[1]);
    assert(f[off + 4] == le32(count)[0]);
    assert(f[off + 5] == le32(count)[1]);
    assert(f[off + 6] == le32(count)[2]);
    assert(f[off + 7] == le32(count)[3]);
    assert(f[off + 8] == le32(val)[0]);
    assert(f[off + 9] == le32(val)[1]);
    assert(f[off + 10] == le32(val)[2]);
    assert(f[off + 11] == le32(val)[3]);
    lemma_le16_roundtrip(f, off, tag);
    lemma_le16_roundtrip(f, off + 2, ty);
    lemma_le32_roundtrip(f, off + 4, count);
    lemma_le32_roundtrip(f, off + 8, val);
}

/// A subrange lying inside the left half of a concatenation.
proof fn lemma_sub_left(a: Seq<u8>, b: Seq<u8>, x: int, y: int)
    requires
        0 <= x <= y <= a.len(),
    ensures
        (a + b).subrange(x, y) == a.subrange(x, y),
{
    assert((a + b).subrange(x, y) =~= a.subrange(x, y));
}

/// The right half of a concatenation as a subrange of the whole.
proof fn lemma_seg(a: Seq<u8>, b: Seq<u8>)
    ensures
        (a + b).subrange(a.len() as int, a.len() + b.len() as int) == b,
{
    assert((a + b).subrange(a.len() as int, a.len() + b.len() as int) =~= b);
}

/// Where each directory entry lies in the written file.
#[verifier::rlimit(100)]
#[verifier::spinoff_prover]
proof fn lemma_file_entries(
    w: u32,
    h: u32,
    bps: u16,
    rps: u32,
    s: u32,
    unit_code: u16,
    xr: Rational,
    yr: Rational,
    icc: Option<Seq<u8>>,
    soff: Seq<u8>,
    scnt: Seq<u8>,
    pix: Seq<u8>,
)
    requires
        s >= 1,
        xr.d != 0,
        yr.d != 0,
        soff.len() == sp_arr_len(s as nat),
        scnt.len() == sp_arr_len(s as nat),
        match icc {
            Some(b) => b.len() <= 0xFFFF_FFFF,
            None => true,
        },
        sp_total(icc, s as nat, pix.len()) <= 0xFFFF_FFFF,
    ensures
        spec_tiff_file(w, h, bps, rps, s, unit_code, xr, yr, icc, soff, scnt, pix).subrange(10, 22) == spec_entry12(256, 4, 1, w),
        spec_tiff_file(w, h, bps, rps, s, unit_code, xr, yr, icc, soff, scnt, pix).subrange(22, 34) == spec_entry12(257, 4, 1, h),
        spec_tiff_file(w, h, bps, rps, s, unit_code, xr, yr, icc, soff, scnt, pix).subrange(34, 46) == spec_entry12(258, 3, 3, sp_off_bps(icc) as u32),
        spec_tiff_file(w, h, bps, rps, s, unit_code, xr, yr, icc, soff, scnt, pix).subrange(46, 58) == spec_entry12(259, 3, 1, 1),
        spec_tiff_file(w, h, bps, rps, s, unit_code, xr, yr, icc, soff, scnt, pix).subrange(58, 70) == spec_entry12(262, 3, 1, 2),
        spec_tiff_file(w, h, bps, rps, s, unit_code, xr, yr, icc, soff, scnt, pix).subrange(70, 82) == spec_entry12(273, 4, s, (if s == 1 { sp_off_pix(icc, s as nat) as u32 } else { sp_off_arrays(icc) as u32 })),
        spec_tiff_file(w, h, bps, rps, s, unit_code, xr, yr, icc, soff, scnt, pix).subrange(82, 94) == spec_entry12(277, 3, 1, 3),
        spec_tiff_file(w, h, bps, rps, s, unit_code, xr, yr, icc, soff, scnt, pix).subrange(94, 106) == spec_entry12(278, 4, 1, rps),
        spec_tiff_file(w, h, bps, rps, s, unit_code, xr, yr, icc, soff, scnt, pix).subrange(106, 118) == spec_entry12(279, 4, s, (if s == 1 { pix.len() as u32 } else { sp_off_scnt(icc, s as nat) as u32 })),
        spec_tiff_file(w, h, bps, rps, s, unit_code, xr, yr, icc, soff, scnt, pix).subrange(118, 130) == spec_entry12(282, 5, 1, sp_off_xres(icc) as u32),
        spec_tiff_file(w, h, bps, rps, s, unit_code, xr, yr, icc, soff, scnt, pix).subrange(130, 142) == spec_entry12(283, 5, 1, sp_off_yres(icc) as u32),
        spec_tiff_file(w, h, bps, rps, s, unit_code, xr, yr, icc, soff, scnt, pix).subrange(142, 154) == spec_entry12(296, 3, 1, unit_code as u32),
        icc is Some ==> spec_tiff_file(w, h, bps, rps, s, unit_code, xr, yr, icc, soff, scnt, pix).subrange(154, 166) == sp_icc_entry(icc, sp_off_icc(icc, s as nat)),
        spec_tiff_file(w, h, bps, rps, s, unit_code, xr, yr, icc, soff, scnt, pix).len() == sp_total(icc, s as nat, pix.len()),
{
    reveal(spec_tiff_file);
    let f = spec_tiff_file(w, h, bps, rps, s, unit_code, xr, yr, icc, soff, scnt, pix);
    let soff_val: u32 = if s == 1 {
        sp_off_pix(icc, s as nat) as u32
    } else {
        sp_off_arrays(icc) as u32
    };
    let scnt_val: u32 = if s == 1 {
        pix.len() as u32
    } else {
        sp_off_scnt(icc, s as nat) as u32
    };
    let g0 = seq![0x49u8, 0x49u8];
    let g1 = le16(42);
    let g2 = le32(8);
    let g3 = le16(sp_ne(icc) as u16);
    let g4 = spec_entry12(256, 4, 1, w);
    let g5 = spec_entry12(257, 4, 1, h);
    let g6 = spec_entry12(258, 3, 3, sp_off_bps(icc) as u32);
    let g7 = spec_entry12(259, 3, 1, 1);
    let g8 = spec_entry12(262, 3, 1, 2);
    let g9 = spec_entry12(273, 4, s, soff_val);
    let g10 = spec_entry12(277, 3, 1, 3);
    let g11 = spec_entry12(278, 4, 1, rps);
    let g12 = spec_entry12(279, 4, s, scnt_val);
    let g13 = spec_entry12(282, 5, 1, sp_off_xres(icc) as u32);
    let g14 = spec_entry12(283, 5, 1, sp_off_yres(icc) as u32);
    let g15 = spec_entry12(296, 3, 1, unit_code as u32);
    let g16 = sp_icc_entry(icc, sp_off_icc(icc, s as nat));
    let g17 = le32(0);
    let g18 = le16(bps);
    let g19 = le16(bps);
    let g20 = le16(bps);
    let g21 = le32(xr.n);
    let g22 = le32(xr.d);
    let g23 = le32(yr.n);
    let g24 = le32(yr.d);
    let g25 = soff;
    let g26 = scnt;
    let g27 = sp_icc_block(icc);
    let g28 = pix;
    let p1 = g0;
    let p2 = p1 + g1;
    let p3 = p2 + g2;
    let p4 = p3 + g3;
    let p5 = p4 + g4;
    let p6 = p5 + g5;
    let p7 = p6 + g6;
    let p8 = p7 + g7;
    let p9 = p8 + g8;
    let p10 = p9 + g9;
    let p11 = p10 + g10;
    let p12 = p11 + g11;
    let p13 = p12 + g12;
    let p14 = p13 + g13;
    let p15 = p14 + g14;
    let p16 = p15 + g15;
    let p17 = p16 + g16;
    let p18 = p17 + g17;
    let p19 = p18 + g18;
    let p20 = p19 + g19;
    let p21 = p20 + g20;
    let p22 = p21 + g21;
    let p23 = p22 + g22;
    let p24 = p23 + g23;
    let p25 = p24 + g24;
    let p26 = p25 + g25;
    let p27 = p26 + g26;
    let p28 = p27 + g27;
    let p29 = p28 + g28;
    assert(f == p29);
    if icc is Some {
        if icc.unwrap().len() <= 4 {
            lemma_zpad_len((4 - icc.unwrap().len()) as nat);
        }
        assert(g16.len() == 12);
    } else {
        assert(g16.len() == 0);
    }
    lemma_sub_left(p28, g28, p4.len() as int, p4.len() + g4.len() as int);
    lemma_sub_left(p27, g27, p4.len() as int, p4.len() + g4.len() as int);
    lemma_sub_left(p26, g26, p4.len() as int, p4.len() + g4.len() as int);
    lemma_sub_left(p25, g25, p4.len() as int, p4.len() + g4.len() as int);
    lemma_sub_left(p24, g24, p4.len() as int, p4.len() + g4.len() as int);
    lemma_sub_left(p23, g23, p4.len() as int, p4.len() + g4.len() as int);
    lemma_sub_left(p22, g22, p4.len() as int, p4.len() + g4.len() as int);
    lemma_sub_left(p21, g21, p4.len() as int, p4.len() + g4.len() as int);
    lemma_sub_left(p20, g20, p4.len() as int, p4.len() + g4.len() as int);
    lemma_sub_left(p19, g19, p4.len() as int, p4.len() + g4.len() as int);
    lemma_sub_left(p18, g18, p4.len() as int, p4.len() + g4.len() as int);
    lemma_sub_left(p17, g17, p4.len() as int, p4.len() + g4.len() as int);
    lemma_sub_left(p16, g16, p4.len() as int, p4.len() + g4.len() as int);
    lemma_sub_left(p15, g15, p4.len() as int, p4.len() + g4.len() as int);
    lemma_sub_left(p14, g14, p4.len() as int, p4.len() + g4.len() as int);
    lemma_sub_left(p13, g13, p4.len() as int, p4.len() + g4.len() as int);
    lemma_sub_left(p12, g12, p4.len() as int, p4.len() + g4.len() as int);
    lemma_sub_left(p11, g11, p4.len() as int, p4.len() + g4.len() as int);
    lemma_sub_left(p10, g10, p4.len() as int, p4.len() + g4.len() as int);
    lemma_sub_left(p9, g9, p4.len() as int, p4.len() + g4.len() as int);
    lemma_sub_left(p8, g8, p4.len() as int, p4.len() + g4.len() as int);
    lemma_sub_left(p7, g7, p4.len() as int, p4.len() + g4.len() as int);
    lemma_sub_left(p6, g6, p4.len() as int, p4.len() + g4.len() as int);
    lemma_sub_left(p5, g5, p4.len() as int, p4.len() + g4.len() as int);
    lemma_seg(p4, g4);
    assert(f.subrange(p4.len() as int, p4.len() + g4.len() as int) == g4);
    assert(p4.len() == 10);
    lemma_sub_left(p28, g28, p5.len() as int, p5.len() + g5.len() as int);
    lemma_sub_left(p27, g27, p5.len() as int, p5.len() + g5.len() as int);
    lemma_sub_left(p26, g26, p5.len() as int, p5.len() + g5.len() as int);
    lemma_sub_left(p25, g25, p5.len() as int, p5.len() + g5.len() as int);
    lemma_sub_left(p24, g24, p5.len() as int, p5.len() + g5.len() as int);
    lemma_sub_left(p23, g23, p5.len() as int, p5.len() + g5.len() as int);
    lemma_sub_left(p22, g22, p5.len() as int, p5.len() + g5.len() as int);
    lemma_sub_left(p21, g21, p5.len() as int, p5.len() + g5.len() as int);
    lemma_sub_left(p20, g20, p5.len() as int, p5.len() + g5.len() as int);
    lemma_sub_left(p19, g19, p5.len() as int, p5.len() + g5.len() as int);
    lemma_sub_left(p18, g18, p5.len() as int, p5.len() + g5.len() as int);
    lemma_sub_left(p17, g17, p5.len() as int, p5.len() + g5.len() as int);
    lemma_sub_left(p16, g16, p5.len() as int, p5.len() + g5.len() as int);
    lemma_sub_left(p15, g15, p5.len() as int, p5.len() + g5.len() as int);
    lemma_sub_left(p14, g14, p5.len() as int, p5.len() + g5.len() as int);
    lemma_sub_left(p13, g13, p5.len() as int, p5.len() + g5.len() as int);
    lemma_sub_left(p12, g12, p5.len() as int, p5.len() + g5.len() as int);
    lemma_sub_left(p11, g11, p5.len() as int, p5.len() + g5.len() as int);
    lemma_sub_left(p10, g10, p5.len() as int, p5.len() + g5.len() as int);
    lemma_sub_left(p9, g9, p5.len() as int, p5.len() + g5.len() as int);
    lemma_sub_left(p8, g8, p5.len() as int, p5.len() + g5.len() as int);
    lemma_sub_left(p7, g7, p5.len() as int, p5.len() + g5.len() as int);
    lemma_sub_left(p6, g6, p5.len() as int, p5.len() + g5.len() as int);
    lemma_seg(p5, g5);
    assert(f.subrange(p5.len() as int, p5.len() + g5.len() as int) == g5);
    assert(p5.len() == 22);
    lemma_sub_left(p28, g28, p6.len() as int, p6.len() + g6.len() as int);
    lemma_sub_left(p27, g27, p6.len() as int, p6.len() + g6.len() as int);
    lemma_sub_left(p26, g26, p6.len() as int, p6.len() + g6.len() as int);
    lemma_sub_left(p25, g25, p6.len() as int, p6.len() + g6.len() as int);
    lemma_sub_left(p24, g24, p6.len() as int, p6.len() + g6.len() as int);
    lemma_sub_left(p23, g23, p6.len() as int, p6.len() + g6.len() as int);
    lemma_sub_left(p22, g22, p6.len() as int, p6.len() + g6.len() as int);
    lemma_sub_left(p21, g21, p6.len() as int, p6.len() + g6.len() as int);
    lemma_sub_left(p20, g20, p6.len() as int, p6.len() + g6.len() as int);
    lemma_sub_left(p19, g19, p6.len() as int, p6.len() + g6.len() as int);
    lemma_sub_left(p18, g18, p6.len() as int, p6.len() + g6.len() as int);
    lemma_sub_left(p17, g17, p6.len() as int, p6.len() + g6.len() as int);
    lemma_sub_left(p16, g16, p6.len() as int, p6.len() + g6.len() as int);
    lemma_sub_left(p15, g15, p6.len() as int, p6.len() + g6.len() as int);
    lemma_sub_left(p14, g14, p6.len() as int, p6.len() + g6.len() as int);
    lemma_sub_left(p13, g13, p6.len() as int, p6.len() + g6.len() as int);
    lemma_sub_left(p12, g12, p6.len() as int, p6.len() + g6.len() as int);
    lemma_sub_left(p11, g11, p6.len() as int, p6.len() + g6.len() as int);
    lemma_sub_left(p10, g10, p6.len() as int, p6.len() + g6.len() as int);
    lemma_sub_left(p9, g9, p6.len() as int, p6.len() + g6.len() as int);
    lemma_sub_left(p8, g8, p6.len() as int, p6.len() + g6.len() as int);
    lemma_sub_left(p7, g7, p6.len() as int, p6.len() + g6.len() as int);
    lemma_seg(p6, g6);
    assert(f.subrange(p6.len() as int, p6.len() + g6.len() as int) == g6);
    assert(p6.len() == 34);
    lemma_sub_left(p28, g28, p7.len() as int, p7.len() + g7.len() as int);
    lemma_sub_left(p27, g27, p7.len() as int, p7.len() + g7.len() as int);
    lemma_sub_left(p26, g26, p7.len() as int, p7.len() + g7.len() as int);
    lemma_sub_left(p25, g25, p7.len() as int, p7.len() + g7.len() as int);
    lemma_sub_left(p24, g24, p7.len() as int, p7.len() + g7.len() as int);
    lemma_sub_left(p23, g23, p7.len() as int, p7.len() + g7.len() as int);
    lemma_sub_left(p22, g22, p7.len() as int, p7.len() + g7.len() as int);
    lemma_sub_left(p21, g21, p7.len() as int, p7.len() + g7.len() as int);
    lemma_sub_left(p20, g20, p7.len() as int, p7.len() + g7.len() as int);
    lemma_sub_left(p19, g19, p7.len() as int, p7.len() + g7.len() as int);
    lemma_sub_left(p18, g18, p7.len() as int, p7.len() + g7.len() as int);
    lemma_sub_left(p17, g17, p7.len() as int, p7.len() + g7.len() as int);
    lemma_sub_left(p16, g16, p7.len() as int, p7.len() + g7.len() as int);
    lemma_sub_left(p15, g15, p7.len() as int, p7.len() + g7.len() as int);
    lemma_sub_left(p14, g14, p7.len() as int, p7.len() + g7.len() as int);
    lemma_sub_left(p13, g13, p7.len() as int, p7.len() + g7.len() as int);
    lemma_sub_left(p12, g12, p7.len() as int, p7.len() + g7.len() as int);
    lemma_sub_left(p11, g11, p7.len() as int, p7.len() + g7.len() as int);
    lemma_sub_left(p10, g10, p7.len() as int, p7.len() + g7.len() as int);
    lemma_sub_left(p9, g9, p7.len() as int, p7.len() + g7.len() as int);
    lemma_sub_left(p8, g8, p7.len() as int, p7.len() + g7.len() as int);
    lemma_seg(p7, g7);
    assert(f.subrange(p7.len() as int, p7.len() + g7.len() as int) == g7);
    assert(p7.len() == 46);
    lemma_sub_left(p28, g28, p8.len() as int, p8.len() + g8.len() as int);
    lemma_sub_left(p27, g27, p8.len() as int, p8.len() + g8.len() as int);
    lemma_sub_left(p26, g26, p8.len() as int, p8.len() + g8.len() as int);
    lemma_sub_left(p25, g25, p8.len() as int, p8.len() + g8.len() as int);
    lemma_sub_left(p24, g24, p8.len() as int, p8.len() + g8.len() as int);
    lemma_sub_left(p23, g23, p8.len() as int, p8.len() + g8.len() as int);
    lemma_sub_left(p22, g22, p8.len() as int, p8.len() + g8.len() as int);
    lemma_sub_left(p21, g21, p8.len() as int, p8.len() + g8.len() as int);
    lemma_sub_left(p20, g20, p8.len() as int, p8.len() + g8.len() as int);
    lemma_sub_left(p19, g19, p8.len() as int, p8.len() + g8.len() as int);
    lemma_sub_left(p18, g18, p8.len() as int, p8.len() + g8.len() as int);
    lemma_sub_left(p17, g17, p8.len() as int, p8.len() + g8.len() as int);
    lemma_sub_left(p16, g16, p8.len() as int, p8.len() + g8.len() as int);
    lemma_sub_left(p15, g15, p8.len() as int, p8.len() + g8.len() as int);
    lemma_sub_left(p14, g14, p8.len() as int, p8.len() + g8.len() as int);
    lemma_sub_left(p13, g13, p8.len() as int, p8.len() + g8.len() as int);
    lemma_sub_left(p12, g12, p8.len() as int, p8.len() + g8.len() as int);
    lemma_sub_left(p11, g11, p8.len() as int, p8.len() + g8.len() as int);
    lemma_sub_left(p10, g10, p8.len() as int, p8.len() + g8.len() as int);
    lemma_sub_left(p9, g9, p8.len() as int, p8.len() + g8.len() as int);
    lemma_seg(p8, g8);
    assert(f.subrange(p8.len() as int, p8.len() + g8.len() as int) == g8);
    assert(p8.len() == 58);
    lemma_sub_left(p28, g28, p9.len() as int, p9.len() + g9.len() as int);
    lemma_sub_left(p27, g27, p9.len() as int, p9.len() + g9.len() as int);
    lemma_sub_left(p26, g26, p9.len() as int, p9.len() + g9.len() as int);
    lemma_sub_left(p25, g25, p9.len() as int, p9.len() + g9.len() as int);
    lemma_sub_left(p24, g24, p9.len() as int, p9.len() + g9.len() as int);
    lemma_sub_left(p23, g23, p9.len() as int, p9.len() + g9.len() as int);
    lemma_sub_left(p22, g22, p9.len() as int, p9.len() + g9.len() as int);
    lemma_sub_left(p21, g21, p9.len() as int, p9.len() + g9.len() as int);
    lemma_sub_left(p20, g20, p9.len() as int, p9.len() + g9.len() as int);
    lemma_sub_left(p19, g19, p9.len() as int, p9.len() + g9.len() as int);
    lemma_sub_left(p18, g18, p9.len() as int, p9.len() + g9.len() as int);
    lemma_sub_left(p17, g17, p9.len() as int, p9.len() + g9.len() as int);
    lemma_sub_left(p16, g16, p9.len() as int, p9.len() + g9.len() as int);
    lemma_sub_left(p15, g15, p9.len() as int, p9.len() + g9.len() as int);
    lemma_sub_left(p14, g14, p9.len() as int, p9.len() + g9.len() as int);
    lemma_sub_left(p13, g13, p9.len() as int, p9.len() + g9.len() as int);
    lemma_sub_left(p12, g12, p9.len() as int, p9.len() + g9.len() as int);
    lemma_sub_left(p11, g11, p9.len() as int, p9.len() + g9.len() as int);
    lemma_sub_left(p10, g10, p9.len() as int, p9.len() + g9.len() as int);
    lemma_seg(p9, g9);
    assert(f.subrange(p9.len() as int, p9.len() + g9.len() as int) == g9);
    assert(p9.len() == 70);
    lemma_sub_left(p28, g28, p10.len() as int, p10.len() + g10.len() as int);
    lemma_sub_left(p27, g27, p10.len() as int, p10.len() + g10.len() as int);
    lemma_sub_left(p26, g26, p10.len() as int, p10.len() + g10.len() as int);
    lemma_sub_left(p25, g25, p10.len() as int, p10.len() + g10.len() as int);
    lemma_sub_left(p24, g24, p10.len() as int, p10.len() + g10.len() as int);
    lemma_sub_left(p23, g23, p10.len() as int, p10.len() + g10.len() as int);
    lemma_sub_left(p22, g22, p10.len() as int, p10.len() + g10.len() as int);
    lemma_sub_left(p21, g21, p10.len() as int, p10.len() + g10.len() as int);
    lemma_sub_left(p20, g20, p10.len() as int, p10.len() + g10.len() as int);
    lemma_sub_left(p19, g19, p10.len() as int, p10.len() + g10.len() as int);
    lemma_sub_left(p18, g18, p10.len() as int, p10.len() + g10.len() as int);
    lemma_sub_left(p17, g17, p10.len() as int, p10.len() + g10.len() as int);
    lemma_sub_left(p16, g16, p10.len() as int, p10.len() + g10.len() as int);
    lemma_sub_left(p15, g15, p10.len() as int, p10.len() + g10.len() as int);
    lemma_sub_left(p14, g14, p10.len() as int, p10.len() + g10.len() as int);
    lemma_sub_left(p13, g13, p10.len() as int, p10.len() + g10.len() as int);
    lemma_sub_left(p12, g12, p10.len() as int, p10.len() + g10.len() as int);
    lemma_sub_left(p11, g11, p10.len() as int, p10.len() + g10.len() as int);
    lemma_seg(p10, g10);
    assert(f.subrange(p10.len() as int, p10.len() + g10.len() as int) == g10);
    assert(p10.len() == 82);
    lemma_sub_left(p28, g28, p11.len() as int, p11.len() + g11.len() as int);
    lemma_sub_left(p27, g27, p11.len() as int, p11.len() + g11.len() as int);
    lemma_sub_left(p26, g26, p11.len() as int, p11.len() + g11.len() as int);
    lemma_sub_left(p25, g25, p11.len() as int, p11.len() + g11.len() as int);
    lemma_sub_left(p24, g24, p11.len() as int, p11.len() + g11.len() as int);
    lemma_sub_left(p23, g23, p11.len() as int, p11.len() + g11.len() as int);
    lemma_sub_left(p22, g22, p11.len() as int, p11.len() + g11.len() as int);
    lemma_sub_left(p21, g21, p11.len() as int, p11.len() + g11.len() as int);
    lemma_sub_left(p20, g20, p11.len() as int, p11.len() + g11.len() as int);
    lemma_sub_left(p19, g19, p11.len() as int, p11.len() + g11.len() as int);
    lemma_sub_left(p18, g18, p11.len() as int, p11.len() + g11.len() as int);
    lemma_sub_left(p17, g17, p11.len() as int, p11.len() + g11.len() as int);
    lemma_sub_left(p16, g16, p11.len() as int, p11.len() + g11.len() as int);
    lemma_sub_left(p15, g15, p11.len() as int, p11.len() + g11.len() as int);
    lemma_sub_left(p14, g14, p11.len() as int, p11.len() + g11.len() as int);
    lemma_sub_left(p13, g13, p11.len() as int, p11.len() + g11.len() as int);
    lemma_sub_left(p12, g12, p11.len() as int, p11.len() + g11.len() as int);
    lemma_seg(p11, g11);
    assert(f.subrange(p11.len() as int, p11.len() + g11.len() as int) == g11);
    assert(p11.len() == 94);
    lemma_sub_left(p28, g28, p12.len() as int, p12.len() + g12.len() as int);
    lemma_sub_left(p27, g27, p12.len() as int, p12.len() + g12.len() as int);
    lemma_sub_left(p26, g26, p12.len() as int, p12.len() + g12.len() as int);
    lemma_sub_left(p25, g25, p12.len() as int, p12.len() + g12.len() as int);
    lemma_sub_left(p24, g24, p12.len() as int, p12.len() + g12.len() as int);
    lemma_sub_left(p23, g23, p12.len() as int, p12.len() + g12.len() as int);
    lemma_sub_left(p22, g22, p12.len() as int, p12.len() + g12.len() as int);
    lemma_sub_left(p21, g21, p12.len() as int, p12.len() + g12.len() as int);
    lemma_sub_left(p20, g20, p12.len() as int, p12.len() + g12.len() as int);
    lemma_sub_left(p19, g19, p12.len() as int, p12.len() + g12.len() as int);
    lemma_sub_left(p18, g18, p12.len() as int, p12.len() + g12.len() as int);
    lemma_sub_left(p17, g17, p12.len() as int, p12.len() + g12.len() as int);
    lemma_sub_left(p16, g16, p12.len() as int, p12.len() + g12.len() as int);
    lemma_sub_left(p15, g15, p12.len() as int, p12.len() + g12.len() as int);
    lemma_sub_left(p14, g14, p12.len() as int, p12.len() + g12.len() as int);
    lemma_sub_left(p13, g13, p12.len() as int, p12.len() + g12.len() as int);
    lemma_seg(p12, g12);
    assert(f.subrange(p12.len() as int, p12.len() + g12.len() as int) == g12);
    assert(p12.len() == 106);
    lemma_sub_left(p28, g28, p13.len() as int, p13.len() + g13.len() as int);
    lemma_sub_left(p27, g27, p13.len() as int, p13.len() + g13.len() as int);
    lemma_sub_left(p26, g26, p13.len() as int, p13.len() + g13.len() as int);
    lemma_sub_left(p25, g25, p13.len() as int, p13.len() + g13.len() as int);
    lemma_sub_left(p24, g24, p13.len() as int, p13.len() + g13.len() as int);
    lemma_sub_left(p23, g23, p13.len() as int, p13.len() + g13.len() as int);
    lemma_sub_left(p22, g22, p13.len() as int, p13.len() + g13.len() as int);
    lemma_sub_left(p21, g21, p13.len() as int, p13.len() + g13.len() as int);
    lemma_sub_left(p20, g20, p13.len() as int, p13.len() + g13.len() as int);
    lemma_sub_left(p19, g19, p13.len() as int, p13.len() + g13.len() as int);
    lemma_sub_left(p18, g18, p13.len() as int, p13.len() + g13.len() as int);
    lemma_sub_left(p17, g17, p13.len() as int, p13.len() + g13.len() as int);
    lemma_sub_left(p16, g16, p13.len() as int, p13.len() + g13.len() as int);
    lemma_sub_left(p15, g15, p13.len() as int, p13.len() + g13.len() as int);
    lemma_sub_left(p14, g14, p13.len() as int, p13.len() + g13.len() as int);
    lemma_seg(p13, g13);
    assert(f.subrange(p13.len() as int, p13.len() + g13.len() as int) == g13);
    assert(p13.len() == 118);
    lemma_sub_left(p28, g28, p14.len() as int, p14.len() + g14.len() as int);
    lemma_sub_left(p27, g27, p14.len() as int, p14.len() + g14.len() as int);
    lemma_sub_left(p26, g26, p14.len() as int, p14.len() + g14.len() as int);
    lemma_sub_left(p25, g25, p14.len() as int, p14.len() + g14.len() as int);
    lemma_sub_left(p24, g24, p14.len() as int, p14.len() + g14.len() as int);
    lemma_sub_left(p23, g23, p14.len() as int, p14.len() + g14.len() as int);
    lemma_sub_left(p22, g22, p14.len() as int, p14.len() + g14.len() as int);
    lemma_sub_left(p21, g21, p14.len() as int, p14.len() + g14.len() as int);
    lemma_sub_left(p20, g20, p14.len() as int, p14.len() + g14.len() as int);
    lemma_sub_left(p19, g19, p14.len() as int, p14.len() + g14.len() as int);
    lemma_sub_left(p18, g18, p14.len() as int, p14.len() + g14.len() as int);
    lemma_sub_left(p17, g17, p14.len() as int, p14.len() + g14.len() as int);
    lemma_sub_left(p16, g16, p14.len() as int, p14.len() + g14.len() as int);
    lemma_sub_left(p15, g15, p14.len() as int, p14.len() + g14.len() as int);
    lemma_seg(p14, g14);
    assert(f.subrange(p14.len() as int, p14.len() + g14.len() as int) == g14);
    assert(p14.len() == 130);
    lemma_sub_left(p28, g28, p15.len() as int, p15.len() + g15.len() as int);
    lemma_sub_left(p27, g27, p15.len() as int, p15.len() + g15.len() as int);
    lemma_sub_left(p26, g26, p15.len() as int, p15.len() + g15.len() as int);
    lemma_sub_left(p25, g25, p15.len() as int, p15.len() + g15.len() as int);
    lemma_sub_left(p24, g24, p15.len() as int, p15.len() + g15.len() as int);
    lemma_sub_left(p23, g23, p15.len() as int, p15.len() + g15.len() as int);
    lemma_sub_left(p22, g22, p15.len() as int, p15.len() + g15.len() as int);
    lemma_sub_left(p21, g21, p15.len() as int, p15.len() + g15.len() as int);
    lemma_sub_left(p20, g20, p15.len() as int, p15.len() + g15.len() as int);
    lemma_sub_left(p19, g19, p15.len() as int, p15.len() + g15.len() as int);
    lemma_sub_left(p18, g18, p15.len() as int, p15.len() + g15.len() as int);
    lemma_sub_left(p17, g17, p15.len() as int, p15.len() + g15.len() as int);
    lemma_sub_left(p16, g16, p15.len() as int, p15.len() + g15.len() as int);
    lemma_seg(p15, g15);
    assert(f.subrange(p15.len() as int, p15.len() + g15.len() as int) == g15);
    assert(p15.len() == 142);
    if icc is Some {
    lemma_sub_left(p28, g28, p16.len() as int, p16.len() + g16.len() as int);
    lemma_sub_left(p27, g27, p16.len() as int, p16.len() + g16.len() as int);
    lemma_sub_left(p26, g26, p16.len() as int, p16.len() + g16.len() as int);
    lemma_sub_left(p25, g25, p16.len() as int, p16.len() + g16.len() as int);
    lemma_sub_left(p24, g24, p16.len() as int, p16.len() + g16.len() as int);
    lemma_sub_left(p23, g23, p16.len() as int, p16.len() + g16.len() as int);
    lemma_sub_left(p22, g22, p16.len() as int, p16.len() + g16.len() as int);
    lemma_sub_left(p21, g21, p16.len() as int, p16.len() + g16.len() as int);
    lemma_sub_left(p20, g20, p16.len() as int, p16.len() + g16.len() as int);
    lemma_sub_left(p19, g19, p16.len() as int, p16.len() + g16.len() as int);
    lemma_sub_left(p18, g18, p16.len() as int, p16.len() + g16.len() as int);
    lemma_sub_left(p17, g17, p16.len() as int, p16.len() + g16.len() as int);
    lemma_seg(p16, g16);
    assert(f.subrange(p16.len() as int, p16.len() + g16.len() as int) == g16);
        assert(p16.len() == 154);
    }
}

/// Where the external value blocks lie in the written file.
#[verifier::rlimit(100)]
#[verifier::spinoff_prover]
proof fn lemma_file_blocks(
    w: u32,
    h: u32,
    bps: u16,
    rps: u32,
    s: u32,
    unit_code: u16,
    xr: Rational,
    yr: Rational,
    icc: Option<Seq<u8>>,
    soff: Seq<u8>,
    scnt: Seq<u8>,
    pix: Seq<u8>,
)
    requires
        s >= 1,
        xr.d != 0,
        yr.d != 0,
        soff.len() == sp_arr_len(s as nat),
        scnt.len() == sp_arr_len(s as nat),
        match icc {
            Some(b) => b.len() <= 0xFFFF_FFFF,
            None => true,
        },
        sp_total(icc, s as nat, pix.len()) <= 0xFFFF_FFFF,
    ensures
        spec_tiff_file(w, h, bps, rps, s, unit_code, xr, yr, icc, soff, scnt, pix).subrange(sp_off_xres(icc), sp_off_xres(icc) + 4) == le32(xr.n),
        spec_tiff_file(w, h, bps, rps, s, unit_code, xr, yr, icc, soff, scnt, pix).subrange(sp_off_xres(icc) + 4, sp_off_xres(icc) + 8) == le32(xr.d),
        spec_tiff_file(w, h, bps, rps, s, unit_code, xr, yr, icc, soff, scnt, pix).subrange(sp_off_yres(icc), sp_off_yres(icc) + 4) == le32(yr.n),
        spec_tiff_file(w, h, bps, rps, s, unit_code, xr, yr, icc, soff, scnt, pix).subrange(sp_off_yres(icc) + 4, sp_off_yres(icc) + 8) == le32(yr.d),
        sp_icc_ext(icc) ==> spec_tiff_file(w, h, bps, rps, s, unit_code, xr, yr, icc, soff, scnt, pix).subrange(sp_off_icc(icc, s as nat), sp_off_icc(icc, s as nat) + icc.unwrap().len()) == icc.unwrap(),
        icc is Some ==> spec_tiff_file(w, h, bps, rps, s, unit_code, xr, yr, icc, soff, scnt, pix).subrange(154, 166) == sp_icc_entry(icc, sp_off_icc(icc, s as nat)),
        spec_tiff_file(w, h, bps, rps, s, unit_code, xr, yr, icc, soff, scnt, pix).len() == sp_total(icc, s as nat, pix.len()),
{
    reveal(spec_tiff_file);
    let f = spec_tiff_file(w, h, bps, rps, s, unit_code, xr, yr, icc, soff, scnt, pix);
    let soff_val: u32 = if s == 1 {
        sp_off_pix(icc, s as nat) as u32
    } else {
        sp_off_arrays(icc) as u32
    };
    let scnt_val: u32 = if s == 1 {
        pix.len() as u32
    } else {
        sp_off_scnt(icc, s as nat) as u32
    };
    let g0 = seq![0x49u8, 0x49u8];
    let g1 = le16(42);
    let g2 = le32(8);
    let g3 = le16(sp_ne(icc) as u16);
    let g4 = spec_entry12(256, 4, 1, w);
    let g5 = spec_entry12(257, 4, 1, h);
    let g6 = spec_entry12(258, 3, 3, sp_off_bps(icc) as u32);
    let g7 = spec_entry12(259, 3, 1, 1);
    let g8 = spec_entry12(262, 3, 1, 2);
    let g9 = spec_entry12(273, 4, s, soff_val);
    let g10 = spec_entry12(277, 3, 1, 3);
    let g11 = spec_entry12(278, 4, 1, rps);
    let g12 = spec_entry12(279, 4, s, scnt_val);
    let g13 = spec_entry12(282, 5, 1, sp_off_xres(icc) as u32);
    let g14 = spec_entry12(283, 5, 1, sp_off_yres(icc) as u32);
    let g15 = spec_entry12(296, 3, 1, unit_code as u32);
    let g16 = sp_icc_entry(icc, sp_off_icc(icc, s as nat));
    let g17 = le32(0);
    let g18 = le16(bps);
    let g19 = le16(bps);
    let g20 = le16(bps);
    let g21 = le32(xr.n);
    let g22 = le32(xr.d);
    let g23 = le32(yr.n);
    let g24 = le32(yr.d);
    let g25 = soff;
    let g26 = scnt;
    let g27 = sp_icc_block(icc);
    let g28 = pix;
    let p1 = g0;
    let p2 = p1 + g1;
    let p3 = p2 + g2;
    let p4 = p3 + g3;
    let p5 = p4 + g4;
    let p6 = p5 + g5;
    let p7 = p6 + g6;
    let p8 = p7 + g7;
    let p9 = p8 + g8;
    let p10 = p9 + g9;
    let p11 = p10 + g10;
    let p12 = p11 + g11;
    let p13 = p12 + g12;
    let p14 = p13 + g13;
    let p15 = p14 + g14;
    let p16 = p15 + g15;
    let p17 = p16 + g16;
    let p18 = p17 + g17;
    let p19 = p18 + g18;
    let p20 = p19 + g19;
    let p21 = p20 + g20;
    let p22 = p21 + g21;
    let p23 = p22 + g22;
    let p24 = p23 + g23;
    let p25 = p24 + g24;
    let p26 = p25 + g25;
    let p27 = p26 + g26;
    let p28 = p27 + g27;
    let p29 = p28 + g28;
    assert(f == p29);
    if icc is Some {
        if icc.unwrap().len() <= 4 {
            lemma_zpad_len((4 - icc.unwrap().len()) as nat);
        }
        assert(g16.len() == 12);
    } else {
        assert(g16.len() == 0);
    }
    lemma_sub_left(p28, g28, p21.len() as int, p21.len() + g21.len() as int);
    lemma_sub_left(p27, g27, p21.len() as int, p21.len() + g21.len() as int);
    lemma_sub_left(p26, g26, p21.len() as int, p21.len() + g21.len() as int);
    lemma_sub_left(p25, g25, p21.len() as int, p21.len() + g21.len() as int);
    lemma_sub_left(p24, g24, p21.len() as int, p21.len() + g21.len() as int);
    lemma_sub_left(p23, g23, p21.len() as int, p21.len() + g21.len() as int);
    lemma_sub_left(p22, g22, p21.len() as int, p21.len() + g21.len() as int);
    lemma_seg(p21, g21);
    assert(f.subrange(p21.len() as int, p21.len() + g21.len() as int) == g21);
    assert(p21.len() == sp_off_xres(icc));
    lemma_sub_left(p28, g28, p22.len() as int, p22.len() + g22.len() as int);
    lemma_sub_left(p27, g27, p22.len() as int, p22.len() + g22.len() as int);
    lemma_sub_left(p26, g26, p22.len() as int, p22.len() + g22.len() as int);
    lemma_sub_left(p25, g25, p22.len() as int, p22.len() + g22.len() as int);
    lemma_sub_left(p24, g24, p22.len() as int, p22.len() + g22.len() as int);
    lemma_sub_left(p23, g23, p22.len() as int, p22.len() + g22.len() as int);
    lemma_seg(p22, g22);
    assert(f.subrange(p22.len() as int, p22.len() + g22.len() as int) == g22);
    assert(p22.len() == sp_off_xres(icc) + 4);
    lemma_sub_left(p28, g28, p23.len() as int, p23.len() + g23.len() as int);
    lemma_sub_left(p27, g27, p23.len() as int, p23.len() + g23.len() as int);
    lemma_sub_left(p26, g26, p23.len() as int, p23.len() + g23.len() as int);
    lemma_sub_left(p25, g25, p23.len() as int, p23.len() + g23.len() as int);
    lemma_sub_left(p24, g24, p23.len() as int, p23.len() + g23.len() as int);
    lemma_seg(p23, g23);
    assert(f.subrange(p23.len() as int, p23.len() + g23.len() as int) == g23);
    assert(p23.len() == sp_off_yres(icc));
    lemma_sub_left(p28, g28, p24.len() as int, p24.len() + g24.len() as int);
    lemma_sub_left(p27, g27, p24.len() as int, p24.len() + g24.len() as int);
    lemma_sub_left(p26, g26, p24.len() as int, p24.len() + g24.len() as int);
    lemma_sub_left(p25, g25, p24.len() as int, p24.len() + g24.len() as int);
    lemma_seg(p24, g24);
    assert(f.subrange(p24.len() as int, p24.len() + g24.len() as int) == g24);
    assert(p24.len() == sp_off_yres(icc) + 4);
    if icc is Some {
        lemma_sub_left(p28, g28, p16.len() as int, p16.len() + g16.len() as int);
        lemma_sub_left(p27, g27, p16.len() as int, p16.len() + g16.len() as int);
        lemma_sub_left(p26, g26, p16.len() as int, p16.len() + g16.len() as int);
        lemma_sub_left(p25, g25, p16.len() as int, p16.len() + g16.len() as int);
        lemma_sub_left(p24, g24, p16.len() as int, p16.len() + g16.len() as int);
        lemma_sub_left(p23, g23, p16.len() as int, p16.len() + g16.len() as int);
        lemma_sub_left(p22, g22, p16.len() as int, p16.len() + g16.len() as int);
        lemma_sub_left(p21, g21, p16.len() as int, p16.len() + g16.len() as int);
        lemma_sub_left(p20, g20, p16.len() as int, p16.len() + g16.len() as int);
        lemma_sub_left(p19, g19, p16.len() as int, p16.len() + g16.len() as int);
        lemma_sub_left(p18, g18, p16.len() as int, p16.len() + g16.len() as int);
        lemma_sub_left(p17, g17, p16.len() as int, p16.len() + g16.len() as int);
        lemma_seg(p16, g16);
        assert(f.subrange(p16.len() as int, p16.len() + g16.len() as int) == g16);
        assert(p16.len() == 154);
    }
    if sp_icc_ext(icc) {
    lemma_sub_left(p28, g28, p27.len() as int, p27.len() + g27.len() as int);
    lemma_seg(p27, g27);
    assert(f.subrange(p27.len() as int, p27.len() + g27.len() as int) == g27);
        assert(p27.len() == sp_off_icc(icc, s as nat));
    }
}

/// The ten header bytes of the written file.
#[verifier::rlimit(100)]
#[verifier::spinoff_prover]
proof fn lemma_header_bytes(
    w: u32,
    h: u32,
    bps: u16,
    rps: u32,
    s: u32,
    unit_code: u16,
    xr: Rational,
    yr: Rational,
    icc: Option<Seq<u8>>,
    soff: Seq<u8>,
    scnt: Seq<u8>,
    pix: Seq<u8>,
)
    requires
        s >= 1,
        xr.d != 0,
        yr.d != 0,
        soff.len() == sp_arr_len(s as nat),
        scnt.len() == sp_arr_len(s as nat),
        match icc {
            Some(b) => b.len() <= 0xFFFF_FFFF,
            None => true,
        },
        sp_total(icc, s as nat, pix.len()) <= 0xFFFF_FFFF,
    ensures
        forall|j: int|
            0 <= j < 10 ==> spec_tiff_file(w, h, bps, rps, s, unit_code, xr, yr, icc, soff, scnt, pix)[j] == (seq![0x49u8, 0x49u8] + le16(42)
                + le32(8) + le16(sp_ne(icc) as u16))[j],
{
    let f = spec_tiff_file(w, h, bps, rps, s, unit_code, xr, yr, icc, soff, scnt, pix);
    let ne = sp_ne(icc);
    let m0 = spec_meta_empty();
    lemma_file_entries(w, h, bps, rps, s, unit_code, xr, yr, icc, soff, scnt, pix);
    assert(f.len() == sp_total(icc, s as nat, pix.len()));
    assert(f.len() >= 36 + 12 * ne);
    let hd = seq![0x49u8, 0x49u8] + le16(42) + le32(8) + le16(sp_ne(icc) as u16);
    assert(f.subrange(0, 10) =~= hd) by {
        lemma_file_prefix(w, h, bps, rps, s, unit_code, xr, yr, icc, soff, scnt, pix);
    }
    assert forall|j: int| 0 <= j < 10 implies f[j] == hd[j] by {
        assert(f.subrange(0, 10)[j] == f[j]);
    }
}

/// The header region of the written file as a subrange.
#[verifier::rlimit(100)]
#[verifier::spinoff_prover]
proof fn lemma_file_prefix(
    w: u32,
    h: u32,
    bps: u16,
    rps: u32,
    s: u32,
    unit_code: u16,
    xr: Rational,
    yr: Rational,
    icc: Option<Seq<u8>>,
    soff: Seq<u8>,
    scnt: Seq<u8>,
    pix: Seq<u8>,
)
    requires
        s >= 1,
        xr.d != 0,
        yr.d != 0,
        soff.len() == sp_arr_len(s as nat),
        scnt.len() == sp_arr_len(s as nat),
        match icc {
            Some(b) => b.len() <= 0xFFFF_FFFF,
            None => true,
        },
        sp_total(icc, s as nat, pix.len()) <= 0xFFFF_FFFF,
    ensures
        spec_tiff_file(w, h, bps, rps, s, unit_code, xr, yr, icc, soff, scnt, pix).subrange(0, 10) == seq![0x49u8, 0x49u8] + le16(42) + le32(
            8,
        ) + le16(sp_ne(icc) as u16),
{
    reveal(spec_tiff_file);
    let f = spec_tiff_file(w, h, bps, rps, s, unit_code, xr, yr, icc, soff, scnt, pix);
    let soff_val: u32 = if s == 1 {
        sp_off_pix(icc, s as nat) as u32
    } else {
        sp_off_arrays(icc) as u32
    };
    let scnt_val: u32 = if s == 1 {
        pix.len() as u32
    } else {
        sp_off_scnt(icc, s as nat) as u32
    };
    let g0 = seq![0x49u8, 0x49u8];
    let g1 = le16(42);
    let g2 = le32(8);
    let g3 = le16(sp_ne(icc) as u16);
    let p4 = g0 + g1 + g2 + g3;
    assert(f.subrange(0, 10) =~= p4);
}
/// The walk over the nine entries before the resolution tags: all skipped,
/// since none is a recognized tag.
#[verifier::rlimit(100)]
#[verifier::spinoff_prover]
proof fn lemma_walk_fixed_entries(
    w: u32,
    h: u32,
    bps: u16,
    rps: u32,
    s: u32,
    unit_code: u16,
    xr: Rational,
    yr: Rational,
    icc: Option<Seq<u8>>,
    soff: Seq<u8>,
    scnt: Seq<u8>,
    pix: Seq<u8>,
)
    requires
        s >= 1,
        xr.d != 0,
        yr.d != 0,
        soff.len() == sp_arr_len(s as nat),
        scnt.len() == sp_arr_len(s as nat),
        match icc {
            Some(b) => b.len() <= 0xFFFF_FFFF,
            None => true,
        },
        sp_total(icc, s as nat, pix.len()) <= 0xFFFF_FFFF,
    ensures
        spec_walk(
            spec_tiff_file(w, h, bps, rps, s, unit_code, xr, yr, icc, soff, scnt, pix),
            true,
            false,
            10,
            sp_ne(icc) as nat,
            spec_meta_empty(),
        ) == spec_walk(
            spec_tiff_file(w, h, bps, rps, s, unit_code, xr, yr, icc, soff, scnt, pix),
            true,
            false,
            118,
            (sp_ne(icc) - 9) as nat,
            spec_meta_empty(),
        ),
{
    let f = spec_tiff_file(w, h, bps, rps, s, unit_code, xr, yr, icc, soff, scnt, pix);
    let ne = sp_ne(icc);
    let m0 = spec_meta_empty();
    lemma_file_entries(w, h, bps, rps, s, unit_code, xr, yr, icc, soff, scnt, pix);
    assert(f.len() == sp_total(icc, s as nat, pix.len()));
    assert(f.len() >= 36 + 12 * ne);

    let soff_val: u32 = if s == 1 {
        sp_off_pix(icc, s as nat) as u32
    } else {
        sp_off_arrays(icc) as u32
    };
    let scnt_val: u32 = if s == 1 {
        pix.len() as u32
    } else {
        sp_off_scnt(icc, s as nat) as u32
    };
    lemma_entry_fields(f, 10, 256, 4, 1, w);
    assert(spec_walk(f, true, false, 10, ne as nat, m0) == spec_walk(
        f,
        true,
        false,
        22,
        (ne - 1) as nat,
        m0,
    ));
    lemma_entry_fields(f, 22, 257, 4, 1, h);
    assert(spec_walk(f, true, false, 22, (ne - 1) as nat, m0) == spec_walk(
        f,
        true,
        false,
        34,
        (ne - 2) as nat,
        m0,
    ));
    lemma_entry_fields(f, 34, 258, 3, 3, sp_off_bps(icc) as u32);
    assert(spec_walk(f, true, false, 34, (ne - 2) as nat, m0) == spec_walk(
        f,
        true,
        false,
        46,
        (ne - 3) as nat,
        m0,
    ));
    lemma_entry_fields(f, 46, 259, 3, 1, 1);
    assert(spec_walk(f, true, false, 46, (ne - 3) as nat, m0) == spec_walk(
        f,
        true,
        false,
        58,
        (ne - 4) as nat,
        m0,
    ));
    lemma_entry_fields(f, 58, 262, 3, 1, 2);
    assert(spec_walk(f, true, false, 58, (ne - 4) as nat, m0) == spec_walk(
        f,
        true,
        false,
        70,
        (ne - 5) as nat,
        m0,
    ));
    lemma_entry_fields(f, 70, 273, 4, s, soff_val);
    assert(spec_walk(f, true, false, 70, (ne - 5) as nat, m0) == spec_walk(
        f,
        true,
        false,
        82,
        (ne - 6) as nat,
        m0,
    ));
    lemma_entry_fields(f, 82, 277, 3, 1, 3);
    assert(spec_walk(f, true, false, 82, (ne - 6) as nat, m0) == spec_walk(
        f,
        true,
        false,
        94,
        (ne - 7) as nat,
        m0,
    ));
    lemma_entry_fields(f, 94, 278, 4, 1, rps);
    assert(spec_walk(f, true, false, 94, (ne - 7) as nat, m0) == spec_walk(
        f,
        true,
        false,
        106,
        (ne - 8) as nat,
        m0,
    ));
    lemma_entry_fields(f, 106, 279, 4, s, scnt_val);
    assert(spec_walk(f, true, false, 106, (ne - 8) as nat, m0) == spec_walk(
        f,
        true,
        false,
        118,
        (ne - 9) as nat,
        m0,
    ));
}

/// The metadata after the three resolution entries have been folded in.
pub open spec fn sp_mid_meta(unit_code: u16, xr: Rational, yr: Rational) -> MetaView {
    MetaView {
        icc: None,
        x_res: Some(xr),
        y_res: Some(yr),
        unit: Some(spec_unit_of(unit_code)),
    }
}

/// The walk over the two resolution entries and the unit entry.
#[verifier::rlimit(100)]
#[verifier::spinoff_prover]
proof fn lemma_walk_resolution_entries(
    w: u32,
    h: u32,
    bps: u16,
    rps: u32,
    s: u32,
    unit_code: u16,
    xr: Rational,
    yr: Rational,
    icc: Option<Seq<u8>>,
    soff: Seq<u8>,
    scnt: Seq<u8>,
    pix: Seq<u8>,
)
    requires
        s >= 1,
        xr.d != 0,
        yr.d != 0,
        soff.len() == sp_arr_len(s as nat),
        scnt.len() == sp_arr_len(s as nat),
        match icc {
            Some(b) => b.len() <= 0xFFFF_FFFF,
            None => true,
        },
        sp_total(icc, s as nat, pix.len()) <= 0xFFFF_FFFF,
    ensures
        spec_walk(
            spec_tiff_file(w, h, bps, rps, s, unit_code, xr, yr, icc, soff, scnt, pix),
            true,
            false,
            118,
            (sp_ne(icc) - 9) as nat,
            spec_meta_empty(),
        ) == spec_walk(
            spec_tiff_file(w, h, bps, rps, s, unit_code, xr, yr, icc, soff, scnt, pix),
            true,
            false,
            154,
            (sp_ne(icc) - 12) as nat,
            sp_mid_meta(unit_code, xr, yr),
        ),
{
    let f = spec_tiff_file(w, h, bps, rps, s, unit_code, xr, yr, icc, soff, scnt, pix);
    let ne = sp_ne(icc);
    let m0 = spec_meta_empty();
    lemma_file_entries(w, h, bps, rps, s, unit_code, xr, yr, icc, soff, scnt, pix);
    assert(f.len() == sp_total(icc, s as nat, pix.len()));
    assert(f.len() >= 36 + 12 * ne);
    lemma_file_blocks(w, h, bps, rps, s, unit_code, xr, yr, icc, soff, scnt, pix);

    // XResolution: read through the external rational block.
    lemma_entry_fields(f, 118, 282, 5, 1, sp_off_xres(icc) as u32);
    let ox = sp_off_xres(icc);
    let xbytes = f.subrange(ox, ox + 8);
    assert(xbytes[0] == f.subrange(ox, ox + 4)[0] && xbytes[1] == f.subrange(ox, ox + 4)[1]
        && xbytes[2] == f.subrange(ox, ox + 4)[2] && xbytes[3] == f.subrange(ox, ox + 4)[3]);
    assert(xbytes[4] == f.subrange(ox + 4, ox + 8)[0] && xbytes[5] == f.subrange(ox + 4, ox + 8)[1]
        && xbytes[6] == f.subrange(ox + 4, ox + 8)[2] && xbytes[7] == f.subrange(ox + 4, ox + 8)[3]);
    lemma_le32_roundtrip(xbytes, 0, xr.n);
    lemma_le32_roundtrip(xbytes, 4, xr.d);
    let m1 = spec_apply_tag(m0, 282, xbytes, true);
    assert(m1 == MetaView { x_res: Some(xr), ..m0 });
    assert(spec_walk(f, true, false, 118, (ne - 9) as nat, m0) == spec_walk(
        f,
        true,
        false,
        130,
        (ne - 10) as nat,
        m1,
    ));

    // YResolution.
    lemma_entry_fields(f, 130, 283, 5, 1, sp_off_yres(icc) as u32);
    let oy = sp_off_yres(icc);
    let ybytes = f.subrange(oy, oy + 8);
    assert(ybytes[0] == f.subrange(oy, oy + 4)[0] && ybytes[1] == f.subrange(oy, oy + 4)[1]
        && ybytes[2] == f.subrange(oy, oy + 4)[2] && ybytes[3] == f.subrange(oy, oy + 4)[3]);
    assert(ybytes[4] == f.subrange(oy + 4, oy + 8)[0] && ybytes[5] == f.subrange(oy + 4, oy + 8)[1]
        && ybytes[6] == f.subrange(oy + 4, oy + 8)[2] && ybytes[7] == f.subrange(oy + 4, oy + 8)[3]);
    lemma_le32_roundtrip(ybytes, 0, yr.n);
    lemma_le32_roundtrip(ybytes, 4, yr.d);
    let m2 = spec_apply_tag(m1, 283, ybytes, true);
    assert(m2 == MetaView { y_res: Some(yr), ..m1 });
    assert(spec_walk(f, true, false, 130, (ne - 10) as nat, m1) == spec_walk(
        f,
        true,
        false,
        142,
        (ne - 11) as nat,
        m2,
    ));

    // ResolutionUnit: the inline SHORT out of the entry value field.
    lemma_entry_fields(f, 142, 296, 3, 1, unit_code as u32);
    let e296 = spec_entry12(296, 3, 1, unit_code as u32);
    let ubytes = f.subrange(150, 152);
    assert(ubytes[0] == f.subrange(142, 154)[8] && ubytes[1] == f.subrange(142, 154)[9]);
    assert(e296[8] == le32(unit_code as u32)[0] && e296[9] == le32(unit_code as u32)[1]);
    assert(spec_u16_at(ubytes, 0, true) == unit_code);
    let m3 = spec_apply_tag(m2, 296, ubytes, true);
    assert(m3 == MetaView { unit: Some(spec_unit_of(unit_code)), ..m2 });
    assert(spec_walk(f, true, false, 142, (ne - 11) as nat, m2) == spec_walk(
        f,
        true,
        false,
        154,
        (ne - 12) as nat,
        m3,
    ));
    assert(m3 == sp_mid_meta(unit_code, xr, yr));
}

/// The ICC entry's walk step when the profile bytes live in an external
/// block.
#[verifier::rlimit(100)]
#[verifier::spinoff_prover]
proof fn lemma_walk_icc_entry_ext(
    w: u32,
    h: u32,
    bps: u16,
    rps: u32,
    s: u32,
    unit_code: u16,
    xr: Rational,
    yr: Rational,
    icc: Option<Seq<u8>>,
    soff: Seq<u8>,
    scnt: Seq<u8>,
    pix: Seq<u8>,
)
    requires
        s >= 1,
        xr.d != 0,
        yr.d != 0,
        soff.len() == sp_arr_len(s as nat),
        scnt.len() == sp_arr_len(s as nat),
        match icc {
            Some(b) => b.len() <= 0xFFFF_FFFF,
            None => true,
        },
        sp_total(icc, s as nat, pix.len()) <= 0xFFFF_FFFF,
        icc is Some,
        icc.unwrap().len() > 4,
    ensures
        spec_walk(
            spec_tiff_file(w, h, bps, rps, s, unit_code, xr, yr, icc, soff, scnt, pix),
            true,
            false,
            154,
            1,
            sp_mid_meta(unit_code, xr, yr),
        ) == Ok::<MetaView, TiffError>(MetaView {
            icc: Some(icc.unwrap()),
            x_res: Some(xr),
            y_res: Some(yr),
            unit: Some(spec_unit_of(unit_code)),
        }),
{
    let f = spec_tiff_file(w, h, bps, rps, s, unit_code, xr, yr, icc, soff, scnt, pix);
    let ne = sp_ne(icc);
    let m0 = spec_meta_empty();
    lemma_file_blocks(w, h, bps, rps, s, unit_code, xr, yr, icc, soff, scnt, pix);
    assert(f.len() == sp_total(icc, s as nat, pix.len()));
    assert(f.len() >= 36 + 12 * ne);
    let m3 = sp_mid_meta(unit_code, xr, yr);
    let b = icc.unwrap();
    let oicc = sp_off_icc(icc, s as nat);
    let ie = sp_icc_entry(icc, oicc);
    assert(f.subrange(154, 166) == ie);
    assert(ie == spec_entry12(34675, 7, b.len() as u32, oicc as u32));
    lemma_entry_fields(f, 154, 34675, 7, b.len() as u32, oicc as u32);
    let ibytes = f.subrange(oicc, oicc + b.len() as int);
    assert(ibytes == b);
    let m4 = spec_apply_tag(m3, 34675, ibytes, true);
    assert(m4 == MetaView { icc: Some(b), ..m3 });
    assert(spec_walk(f, true, false, 154, 1, m3) == spec_walk(f, true, false, 166, 0, m4));
    assert(spec_walk(f, true, false, 166, 0, m4) == Ok::<MetaView, TiffError>(m4));
}

/// The ICC entry's walk step when the profile bytes fit inline in the
/// entry's value field.
#[verifier::rlimit(100)]
#[verifier::spinoff_prover]
proof fn lemma_walk_icc_entry_inline(
    w: u32,
    h: u32,
    bps: u16,
    rps: u32,
    s: u32,
    unit_code: u16,
    xr: Rational,
    yr: Rational,
    icc: Option<Seq<u8>>,
    soff: Seq<u8>,
    scnt: Seq<u8>,
    pix: Seq<u8>,
)
    requires
        s >= 1,
        xr.d != 0,
        yr.d != 0,
        soff.len() == sp_arr_len(s as nat),
        scnt.len() == sp_arr_len(s as nat),
        match icc {
            Some(b) => b.len() <= 0xFFFF_FFFF,
            None => true,
        },
        sp_total(icc, s as nat, pix.len()) <= 0xFFFF_FFFF,
        icc is Some,
        icc.unwrap().len() <= 4,
    ensures
        spec_walk(
            spec_tiff_file(w, h, bps, rps, s, unit_code, xr, yr, icc, soff, scnt, pix),
            true,
            false,
            154,
            1,
            sp_mid_meta(unit_code, xr, yr),
        ) == Ok::<MetaView, TiffError>(MetaView {
            icc: spec_kept_icc(icc),
            x_res: Some(xr),
            y_res: Some(yr),
            unit: Some(spec_unit_of(unit_code)),
        }),
{
    let f = spec_tiff_file(w, h, bps, rps, s, unit_code, xr, yr, icc, soff, scnt, pix);
    let ne = sp_ne(icc);
    let m0 = spec_meta_empty();
    lemma_file_blocks(w, h, bps, rps, s, unit_code, xr, yr, icc, soff, scnt, pix);
    assert(f.len() == sp_total(icc, s as nat, pix.len()));
    assert(f.len() >= 36 + 12 * ne);
    let m3 = sp_mid_meta(unit_code, xr, yr);
    let b = icc.unwrap();
    let oicc = sp_off_icc(icc, s as nat);
    lemma_zpad_len((4 - b.len()) as nat);
    let sub = f.subrange(154, 166);
    assert(sub == sp_icc_entry(icc, oicc));
    assert(sub[0] == f[154] && sub[1] == f[155] && sub[2] == f[156] && sub[3] == f[157] && sub[4]
        == f[158] && sub[5] == f[159] && sub[6] == f[160] && sub[7] == f[161]);
    assert(f[154] == le16(34675)[0]);
    assert(f[155] == le16(34675)[1]);
    assert(f[156] == le16(7)[0]);
    assert(f[157] == le16(7)[1]);
    assert(f[158] == le32(b.len() as u32)[0]);
    assert(f[159] == le32(b.len() as u32)[1]);
    assert(f[160] == le32(b.len() as u32)[2]);
    assert(f[161] == le32(b.len() as u32)[3]);
    lemma_le16_roundtrip(f, 154, 34675);
    lemma_le16_roundtrip(f, 156, 7);
    lemma_le32_roundtrip(f, 158, b.len() as u32);
    assert(sub[8] == f[162] && sub[9] == f[163] && sub[10] == f[164] && sub[11] == f[165]);
    let pad = b + zpad((4 - b.len()) as nat);
    assert(f[162] == pad[0] && f[163] == pad[1] && f[164] == pad[2] && f[165] == pad[3]);
    let ibytes = f.subrange(162, 162 + b.len() as int);
    assert forall|j: int| 0 <= j < b.len() implies ibytes[j] == b[j] by {
        assert(ibytes[j] == f[162 + j]);
        assert(pad[j] == b[j]);
    }
    assert(ibytes =~= b);
    assert(spec_u16_at(f, 154, true) == 34675);
    assert(spec_type_size(spec_u16_at(f, 156, true)) == Some(1u64));
    assert(spec_u32_at(f, 158, true) == b.len() as u32);
    let cnt = spec_u32_at(f, 158, true) as u64;
    assert(cnt == b.len());
    assert(spec_sat_mul(cnt, 1) == cnt) by {
        assert(cnt * 1 == cnt) by (nonlinear_arith);
    }
    let voff = spec_u32_at(f, 162, true) as u64;
    if b.len() == 0 {
        assert(spec_entry_bytes(f, false, 154, cnt, voff) == Ok::<Seq<u8>, TiffError>(
            Seq::empty(),
        ));
        assert(spec_apply_tag(m3, 34675, Seq::empty(), true) == m3);
        assert(spec_walk(f, true, false, 154, 1, m3) == spec_walk(f, true, false, 166, 0, m3));
    } else {
        assert(spec_entry_bytes(f, false, 154, cnt, voff) == Ok::<Seq<u8>, TiffError>(f.subrange(
            162,
            162 + cnt as int,
        )));
        assert(f.subrange(162, 162 + cnt as int) == ibytes);
        let m4 = spec_apply_tag(m3, 34675, ibytes, true);
        assert(m4 == MetaView { icc: Some(b), ..m3 });
        assert(spec_walk(f, true, false, 154, 1, m3) == spec_walk(f, true, false, 166, 0, m4));
    }
}

/// The walk over the ICC entry (when present), completing IFD0.
#[verifier::rlimit(100)]
#[verifier::spinoff_prover]
proof fn lemma_walk_icc_entry(
    w: u32,
    h: u32,
    bps: u16,
    rps: u32,
    s: u32,
    unit_code: u16,
    xr: Rational,
    yr: Rational,
    icc: Option<Seq<u8>>,
    soff: Seq<u8>,
    scnt: Seq<u8>,
    pix: Seq<u8>,
)
    requires
        s >= 1,
        xr.d != 0,
        yr.d != 0,
        soff.len() == sp_arr_len(s as nat),
        scnt.len() == sp_arr_len(s as nat),
        match icc {
            Some(b) => b.len() <= 0xFFFF_FFFF,
            None => true,
        },
        sp_total(icc, s as nat, pix.len()) <= 0xFFFF_FFFF,
    ensures
        spec_walk(
            spec_tiff_file(w, h, bps, rps, s, unit_code, xr, yr, icc, soff, scnt, pix),
            true,
            false,
            154,
            (sp_ne(icc) - 12) as nat,
            sp_mid_meta(unit_code, xr, yr),
        ) == Ok::<MetaView, TiffError>(MetaView {
            icc: spec_kept_icc(icc),
            x_res: Some(xr),
            y_res: Some(yr),
            unit: Some(spec_unit_of(unit_code)),
        }),
{
    let f = spec_tiff_file(w, h, bps, rps, s, unit_code, xr, yr, icc, soff, scnt, pix);
    let m3 = sp_mid_meta(unit_code, xr, yr);
    match icc {
        None => {
            assert(spec_walk(f, true, false, 154, 0, m3) == Ok::<MetaView, TiffError>(m3));
        },
        Some(b) => {
            if b.len() > 4 {
                lemma_walk_icc_entry_ext(w, h, bps, rps, s, unit_code, xr, yr, icc, soff, scnt, pix);
            } else {
                lemma_walk_icc_entry_inline(w, h, bps, rps, s, unit_code, xr, yr, icc, soff, scnt, pix);
            }
        },
    }
}

/// Reading a written file back recovers exactly the embedded ICC bytes (when
/// nonempty) and the resolution tags that were written.
#[verifier::rlimit(100)]
#[verifier::spinoff_prover]
pub proof fn lemma_parse_written(
    w: u32,
    h: u32,
    bps: u16,
    rps: u32,
    s: u32,
    unit_code: u16,
    xr: Rational,
    yr: Rational,
    icc: Option<Seq<u8>>,
    soff: Seq<u8>,
    scnt: Seq<u8>,
    pix: Seq<u8>,
)
    requires
        s >= 1,
        xr.d != 0,
        yr.d != 0,
        soff.len() == sp_arr_len(s as nat),
        scnt.len() == sp_arr_len(s as nat),
        match icc {
            Some(b) => b.len() <= 0xFFFF_FFFF,
            None => true,
        },
        sp_total(icc, s as nat, pix.len()) <= 0xFFFF_FFFF,
    ensures
        spec_parse_tiff(spec_tiff_file(w, h, bps, rps, s, unit_code, xr, yr, icc, soff, scnt, pix))
            == Ok::<MetaView, TiffError>(MetaView {
            icc: spec_kept_icc(icc),
            x_res: Some(xr),
            y_res: Some(yr),
            unit: Some(spec_unit_of(unit_code)),
        }),
{
    let f = spec_tiff_file(w, h, bps, rps, s, unit_code, xr, yr, icc, soff, scnt, pix);
    let ne = sp_ne(icc);
    let m0 = spec_meta_empty();
    lemma_file_entries(w, h, bps, rps, s, unit_code, xr, yr, icc, soff, scnt, pix);
    assert(f.len() == sp_total(icc, s as nat, pix.len()));
    assert(f.len() >= 36 + 12 * ne);

    // Header.
    let hd = seq![0x49u8, 0x49u8] + le16(42) + le32(8) + le16(ne as u16);
    assert(f.subrange(10, 22) == spec_entry12(256, 4, 1, w));
    assert(f[0] == hd[0] && f[1] == hd[1] && f[2] == hd[2] && f[3] == hd[3] && f[4] == hd[4]
        && f[5] == hd[5] && f[6] == hd[6] && f[7] == hd[7] && f[8] == hd[8] && f[9] == hd[9])
        by {
        lemma_header_bytes(w, h, bps, rps, s, unit_code, xr, yr, icc, soff, scnt, pix);
    }
    assert(f[0] == 0x49);
    assert(f[1] == 0x49);
    assert(f[2] == le16(42)[0] && f[3] == le16(42)[1]);
    lemma_le16_roundtrip(f, 2, 42);
    assert(f[4] == le32(8)[0] && f[5] == le32(8)[1] && f[6] == le32(8)[2] && f[7] == le32(8)[3]);
    lemma_le32_roundtrip(f, 4, 8);
    assert(f[8] == le16(ne as u16)[0] && f[9] == le16(ne as u16)[1]);
    lemma_le16_roundtrip(f, 8, ne as u16);
    assert(spec_u16_at(f, 8, true) == ne);

    lemma_walk_fixed_entries(w, h, bps, rps, s, unit_code, xr, yr, icc, soff, scnt, pix);
    lemma_walk_resolution_entries(w, h, bps, rps, s, unit_code, xr, yr, icc, soff, scnt, pix);
    lemma_walk_icc_entry(w, h, bps, rps, s, unit_code, xr, yr, icc, soff, scnt, pix);
}

/// The view of optional borrowed source metadata.
pub open spec fn sp_opt_meta(meta: Option<&TiffMeta>) -> Option<MetaView> {
    match meta {
        Some(m) => Some(m@),
        None => None,
    }
}

/// What the reader recovers from a file this writer produced: the embedded
/// ICC bytes when nonempty, and the normalized resolution.
pub open spec fn spec_written_meta(icc: Option<Seq<u8>>, m: Option<MetaView>) -> MetaView {
    MetaView {
        icc: spec_kept_icc(icc),
        x_res: Some(spec_norm_x(m)),
        y_res: Some(spec_norm_y(m)),
        unit: Some(spec_norm_unit(m)),
    }
}

/// The wire code of a normalized resolution unit: inch 2, centimeter 3.
/// Normalization never yields "no unit"; anything else maps to inch.
pub open spec fn sp_unit_code(u: ResUnit) -> u16 {
    if u is Centimeter {
        3
    } else {
        2
    }
}

fn unit_code_of(u: ResUnit) -> (r: u16)
    ensures
        r == sp_unit_code(u),
        spec_unit_of(r) == (if u is Centimeter {
            ResUnit::Centimeter
        } else {
            ResUnit::Inch
        }),
{
    match u {
        ResUnit::Centimeter => 3,
        _ => 2,
    }
}

/// Shared tail of the two public writers: builds the file and carries the
/// parse-back fact over from `lemma_parse_written`.
fn write_tiff_common(
    w: u32,
    h: u32,
    bps: u16,
    rps: u32,
    row_bytes: u64,
    pixb: Vec<u8>,
    icc: Option<&Vec<u8>>,
    meta: Option<&TiffMeta>,
) -> (r: Result<Vec<u8>, TiffError>)
    requires
        w >= 1,
        h >= 1,
        rps >= 1,
        pixb@.len() == h * row_bytes,
    ensures
        match r {
            Ok(out) => spec_parse_tiff(out@) == Ok::<MetaView, TiffError>(
                spec_written_meta(sp_opt_bytes(icc), sp_opt_meta(meta)),
            ),
            Err(e) => e == TiffError::TooLarge,
        },
        r matches Ok(out) ==> out@ == spec_tiff_file(
            w,
            h,
            bps,
            rps,
            sp_strips(h as nat, rps as nat) as u32,
            sp_unit_code(spec_norm_unit(sp_opt_meta(meta))),
            spec_norm_x(sp_opt_meta(meta)),
            spec_norm_y(sp_opt_meta(meta)),
            sp_opt_bytes(icc),
            sp_soff(
                sp_opt_bytes(icc),
                sp_strips(h as nat, rps as nat),
                rps as int,
                row_bytes as int,
            ),
            sp_scnt(h as int, sp_strips(h as nat, rps as nat), rps as int, row_bytes as int),
            pixb@,
        ),
        (r is Err) <==> sp_total(sp_opt_bytes(icc), sp_strips(h as nat, rps as nat), pixb@.len())
            > u32::MAX,
{
    let (unit, xr, yr) = normalize_resolution(meta);
    let unit_code = unit_code_of(unit);
    proof {
        assert(spec_unit_of(unit_code) == spec_norm_unit(sp_opt_meta(meta)));
        assert(unit_code == sp_unit_code(spec_norm_unit(sp_opt_meta(meta))));
    }
    let r = build_classic_tiff(w, h, bps, rps, row_bytes, &pixb, icc, xr, yr, unit_code);
    proof {
        let ghost icc_v = sp_opt_bytes(icc);
        let ghost s = sp_strips(h as nat, rps as nat);
        if r is Ok {
            let soff = sp_soff(icc_v, s, rps as int, row_bytes as int);
            let scnt = sp_scnt(h as int, s, rps as int, row_bytes as int);
            assert(s >= 1 && s <= h) by {
                assert((h + rps - 1) as int / rps as int >= 1 && (h + rps - 1) as int / rps as int
                    <= h as int) by (nonlinear_arith)
                    requires
                        h >= 1,
                        rps >= 1,
                ;
            }
            lemma_strip_seq_len(
                sp_off_pix(icc_v, s),
                h as int,
                rps as int,
                row_bytes as int,
                s,
            );
            assert(soff.len() == sp_arr_len(s));
            assert(scnt.len() == sp_arr_len(s));
            assert(match icc_v {
                Some(b) => b.len() <= 0xFFFF_FFFF,
                None => true,
            });
            lemma_parse_written(
                w,
                h,
                bps,
                rps,
                s as u32,
                unit_code,
                xr,
                yr,
                icc_v,
                soff,
                scnt,
                pixb@,
            );
        }
    }
    r
}

/// Writes an 8-bit RGB image as a classic TIFF in strips of 128 rows, with
/// the ICC profile (when given) under tag 34675 as wire type UNDEFINED —
/// not BYTE — and the normalized resolution tags. The output is pinned byte
/// for byte by `spec_tiff_file`: the directory entries, the strip offsets
/// and byte counts, and the raw samples in row-major order. Reading it back
/// with this crate's reader provably recovers exactly the nonempty ICC
/// bytes and the normalized resolution; the only failure is an image too
/// large for the format's 32-bit offsets, exactly then.
pub fn write_tiff_rgb8(
    w: u32,
    h: u32,
    pix: &Vec<Rgb8>,
    icc: Option<&Vec<u8>>,
    meta: Option<&TiffMeta>,
) -> (r: Result<Vec<u8>, TiffError>)
    requires
        w >= 1,
        h >= 1,
        pix@.len() == w * h,
    ensures
        match r {
            Ok(out) => spec_parse_tiff(out@) == Ok::<MetaView, TiffError>(
                spec_written_meta(sp_opt_bytes(icc), sp_opt_meta(meta)),
            ),
            Err(e) => e == TiffError::TooLarge,
        },
        r matches Ok(out) ==> out@ == spec_tiff_file(
            w,
            h,
            8,
            128,
            sp_strips(h as nat, 128) as u32,
            sp_unit_code(spec_norm_unit(sp_opt_meta(meta))),
            spec_norm_x(sp_opt_meta(meta)),
            spec_norm_y(sp_opt_meta(meta)),
            sp_opt_bytes(icc),
            sp_soff(sp_opt_bytes(icc), sp_strips(h as nat, 128), 128, 3 * (w as int)),
            sp_scnt(h as int, sp_strips(h as nat, 128), 128, 3 * (w as int)),
            spec_rgb8_buf_bytes(pix@),
        ),
        (r is Err) <==> sp_total(
            sp_opt_bytes(icc),
            sp_strips(h as nat, 128),
            (pix@.len() * 3) as nat,
        ) > u32::MAX,
{
    let pixb = rgb8_bytes(pix);
    let row_bytes: u64 = (w as u64) * 3;
    proof {
        assert((w * h) as int * 3 == h as int * ((w as u64) * 3) as int) by (nonlinear_arith);
        assert(row_bytes as int == 3 * (w as int));
    }
    write_tiff_common(w, h, 8, 128, row_bytes, pixb, icc, meta)
}

/// Writes a 16-bit RGB image as a classic TIFF in strips of 64 rows, with
/// little-endian samples, the ICC profile (when given) under tag 34675 as
/// wire type UNDEFINED, and the normalized resolution tags. The same
/// byte-exact layout and parse-back contracts as the 8-bit writer hold.
pub fn write_tiff_rgb16(
    w: u32,
    h: u32,
    pix: &Vec<Rgb16>,
    icc: Option<&Vec<u8>>,
    meta: Option<&TiffMeta>,
) -> (r: Result<Vec<u8>, TiffError>)
    requires
        w >= 1,
        h >= 1,
        pix@.len() == w * h,
    ensures
        match r {
            Ok(out) => spec_parse_tiff(out@) == Ok::<MetaView, TiffError>(
                spec_written_meta(sp_opt_bytes(icc), sp_opt_meta(meta)),
            ),
            Err(e) => e == TiffError::TooLarge,
        },
        r matches Ok(out) ==> out@ == spec_tiff_file(
            w,
            h,
            16,
            64,
            sp_strips(h as nat, 64) as u32,
            sp_unit_code(spec_norm_unit(sp_opt_meta(meta))),
            spec_norm_x(sp_opt_meta(meta)),
            spec_norm_y(sp_opt_meta(meta)),
            sp_opt_bytes(icc),
            sp_soff(sp_opt_bytes(icc), sp_strips(h as nat, 64), 64, 6 * (w as int)),
            sp_scnt(h as int, sp_strips(h as nat, 64), 64, 6 * (w as int)),
            spec_rgb16_buf_bytes_le(pix@),
        ),
        (r is Err) <==> sp_total(
            sp_opt_bytes(icc),
            sp_strips(h as nat, 64),
            (pix@.len() * 6) as nat,
        ) > u32::MAX,
{
    let pixb = rgb16_bytes_le(pix);
    let row_bytes: u64 = (w as u64) * 6;
    proof {
        assert((w * h) as int * 6 == h as int * ((w as u64) * 6) as int) by (nonlinear_arith);
        assert(row_bytes as int == 6 * (w as int));
    }
    write_tiff_common(w, h, 16, 64, row_bytes, pixb, icc, meta)
}

/// Round trip: for any file the reader accepts as a classic or BigTIFF with
/// an embedded ICC profile, rewriting with that profile preserves the exact
/// ICC byte sequence — the rewritten file parses to the same ICC bytes.
pub proof fn lemma_icc_round_trip(
    input: Seq<u8>,
    mv: MetaView,
    w: u32,
    h: u32,
    bps: u16,
    rps: u32,
    s: u32,
    unit_code: u16,
    xr: Rational,
    yr: Rational,
    soff: Seq<u8>,
    scnt: Seq<u8>,
    pix: Seq<u8>,
)
    requires
        spec_parse_tiff(input) == Ok::<MetaView, TiffError>(mv),
        mv.icc is Some,
        s >= 1,
        xr.d != 0,
        yr.d != 0,
        soff.len() == sp_arr_len(s as nat),
        scnt.len() == sp_arr_len(s as nat),
        mv.icc.unwrap().len() <= 0xFFFF_FFFF,
        sp_total(mv.icc, s as nat, pix.len()) <= 0xFFFF_FFFF,
    ensures
        spec_parse_tiff(
            spec_tiff_file(w, h, bps, rps, s, unit_code, xr, yr, mv.icc, soff, scnt, pix),
        ) matches Ok(out) && out.icc == mv.icc,
{
    lemma_parse_icc_nonempty(input);
    assert(mv.icc.unwrap().len() > 0);
    lemma_parse_written(w, h, bps, rps, s, unit_code, xr, yr, mv.icc, soff, scnt, pix);
}

} // verus!
