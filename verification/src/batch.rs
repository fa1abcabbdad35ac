//! The planning half of the batch orchestrator: which files are eligible,
//! what their destinations are called, when an existing destination is
//! skipped, and how per-file outcomes are aggregated into the end-of-run
//! summary. Paths are modeled as byte strings; the filesystem itself is
//! driven elsewhere.
use vstd::prelude::*;

use crate::endian::append_bytes;
use vstd::multiset::Multiset;

verus! {

/// ASCII lowercasing of one byte.
pub open spec fn spec_lower(b: u8) -> u8 {
    if 0x41 <= b <= 0x5A {
        (b + 0x20) as u8
    } else {
        b
    }
}

/// ASCII lowercasing of a byte string.
pub open spec fn spec_lower_seq(s: Seq<u8>) -> Seq<u8> {
    s.map_values(|b: u8| spec_lower(b))
}

/// The position of the last occurrence of `b`, or -1.
pub open spec fn spec_last_pos(s: Seq<u8>, b: u8) -> int
    decreases s.len(),
{
    if s.len() == 0 {
        -1
    } else if s.last() == b {
        s.len() - 1
    } else {
        spec_last_pos(s.drop_last(), b)
    }
}

/// The extension of a path: the part of the final component after its last
/// dot, none when the component has no dot past its first byte.
pub open spec fn spec_ext(p: Seq<u8>) -> Option<Seq<u8>> {
    let name = p.subrange(spec_last_pos(p, 0x2F) + 1, p.len() as int);
    let dot = spec_last_pos(name, 0x2E);
    if dot <= 0 {
        None
    } else {
        Some(name.subrange(dot + 1, name.len() as int))
    }
}

/// The fixed extension allow-list: tif, tiff, png, jpg, jpeg, compared
/// case-insensitively.
pub open spec fn spec_supported_ext(e: Seq<u8>) -> bool {
    let l = spec_lower_seq(e);
    ||| l == seq![0x74u8, 0x69, 0x66]
    ||| l == seq![0x74u8, 0x69, 0x66, 0x66]
    ||| l == seq![0x70u8, 0x6E, 0x67]
    ||| l == seq![0x6Au8, 0x70, 0x67]
    ||| l == seq![0x6Au8, 0x70, 0x65, 0x67]
}

/// Whether a path names a file the batch picks up.
pub open spec fn spec_is_supported_image(p: Seq<u8>) -> bool {
    match spec_ext(p) {
        Some(e) => spec_supported_ext(e),
        None => false,
    }
}

/// Whether a path names a TIFF file.
pub open spec fn spec_is_tiff_path(p: Seq<u8>) -> bool {
    match spec_ext(p) {
        Some(e) => spec_lower_seq(e) == seq![0x74u8, 0x69, 0x66] || spec_lower_seq(e) == seq![
            0x74u8,
            0x69,
            0x66,
            0x66,
        ],
        None => false,
    }
}

/// Whether a path names a JPEG file.
pub open spec fn spec_is_jpeg_path(p: Seq<u8>) -> bool {
    match spec_ext(p) {
        Some(e) => spec_lower_seq(e) == seq![0x6Au8, 0x70, 0x67] || spec_lower_seq(e) == seq![
            0x6Au8,
            0x70,
            0x65,
            0x67,
        ],
        None => false,
    }
}

fn lower_byte(b: u8) -> (r: u8)
    ensures
        r == spec_lower(b),
{
    if 0x41 <= b && b <= 0x5A {
        b + 0x20
    } else {
        b
    }
}

/// ASCII-lowercases a byte string.
pub fn lower_bytes(s: &Vec<u8>) -> (r: Vec<u8>)
    ensures
        r@ == spec_lower_seq(s@),
{
    let mut r: Vec<u8> = Vec::new();
    let mut i: usize = 0;
    while i < s.len()
        invariant
            i <= s@.len(),
            r@.len() == i,
            forall|k: int| 0 <= k < i ==> r@[k] == spec_lower(s@[k]),
        decreases s@.len() - i,
    {
        r.push(lower_byte(s[i]));
        i = i + 1;
    }
    proof {
        assert(r@ =~= spec_lower_seq(s@));
    }
    r
}

proof fn lemma_last_pos_bounds(s: Seq<u8>, b: u8)
    ensures
        -1 <= spec_last_pos(s, b) < s.len(),
    decreases s.len(),
{
    if s.len() > 0 && s.last() != b {
        lemma_last_pos_bounds(s.drop_last(), b);
    }
}

/// The position of the last occurrence of `b` in `s`, or -1.
fn last_pos(s: &Vec<u8>, b: u8) -> (r: i64)
    requires
        s@.len() < 0x1_0000_0000,
    ensures
        r == spec_last_pos(s@, b),
{
    proof {
        assert(s@.subrange(0, s@.len() as int) =~= s@);
    }
    let mut j: usize = s.len();
    while j > 0
        invariant
            j <= s@.len(),
            s@.len() < 0x1_0000_0000,
            spec_last_pos(s@, b) == spec_last_pos(s@.subrange(0, j as int), b),
        decreases j,
    {
        proof {
            let sub = s@.subrange(0, j as int);
            assert(sub.last() == s@[j - 1]);
            assert(sub.drop_last() =~= s@.subrange(0, j - 1));
        }
        if s[j - 1] == b {
            return (j - 1) as i64;
        }
        j = j - 1;
    }
    proof {
        assert(s@.subrange(0, 0) =~= Seq::<u8>::empty());
    }
    -1
}

/// The extension of a path, lowercased: what the eligibility and format
/// dispatch decisions look at.
pub fn path_ext_lower(p: &Vec<u8>) -> (r: Option<Vec<u8>>)
    requires
        p@.len() < 0x1_0000_0000,
    ensures
        match (r, spec_ext(p@)) {
            (Some(v), Some(e)) => v@ == spec_lower_seq(e),
            (None, None) => true,
            _ => false,
        },
{
    let slash = last_pos(p, 0x2F);
    proof {
        lemma_last_pos_bounds(p@, 0x2F);
    }
    let start: usize = (slash + 1) as usize;
    let name = crate::endian::copy_range(p, start, p.len() - start);
    proof {
        assert(name@ =~= p@.subrange(spec_last_pos(p@, 0x2F) + 1, p@.len() as int));
    }
    let dot = last_pos(&name, 0x2E);
    proof {
        lemma_last_pos_bounds(name@, 0x2E);
    }
    if dot <= 0 {
        None
    } else {
        let ds: usize = (dot + 1) as usize;
        let e = crate::endian::copy_range(&name, ds, name.len() - ds);
        proof {
            assert(e@ =~= spec_ext(p@).unwrap());
        }
        Some(lower_bytes(&e))
    }
}

fn bytes_eq(a: &Vec<u8>, b: &Vec<u8>) -> (r: bool)
    ensures
        r == (a@ == b@),
{
    if a.len() != b.len() {
        proof {
            assert(a@ != b@);
        }
        return false;
    }
    let mut i: usize = 0;
    while i < a.len()
        invariant
            a@.len() == b@.len(),
            i <= a@.len(),
            forall|k: int| 0 <= k < i ==> a@[k] == b@[k],
        decreases a@.len() - i,
    {
        if a[i] != b[i] {
            return false;
        }
        i = i + 1;
    }
    proof {
        assert(a@ =~= b@);
    }
    true
}

fn supported_ext_vec() -> (r: (Vec<u8>, Vec<u8>, Vec<u8>, Vec<u8>, Vec<u8>))
    ensures
        r.0@ == seq![0x74u8, 0x69, 0x66],
        r.1@ == seq![0x74u8, 0x69, 0x66, 0x66],
        r.2@ == seq![0x70u8, 0x6E, 0x67],
        r.3@ == seq![0x6Au8, 0x70, 0x67],
        r.4@ == seq![0x6Au8, 0x70, 0x65, 0x67],
{
    let mut tif: Vec<u8> = Vec::new();
    tif.push(0x74);
    tif.push(0x69);
    tif.push(0x66);
    let mut tiff: Vec<u8> = Vec::new();
    tiff.push(0x74);
    tiff.push(0x69);
    tiff.push(0x66);
    tiff.push(0x66);
    let mut png: Vec<u8> = Vec::new();
    png.push(0x70);
    png.push(0x6E);
    png.push(0x67);
    let mut jpg: Vec<u8> = Vec::new();
    jpg.push(0x6A);
    jpg.push(0x70);
    jpg.push(0x67);
    let mut jpeg: Vec<u8> = Vec::new();
    jpeg.push(0x6A);
    jpeg.push(0x70);
    jpeg.push(0x65);
    jpeg.push(0x67);
    proof {
        assert(tif@ =~= seq![0x74u8, 0x69, 0x66]);
        assert(tiff@ =~= seq![0x74u8, 0x69, 0x66, 0x66]);
        assert(png@ =~= seq![0x70u8, 0x6E, 0x67]);
        assert(jpg@ =~= seq![0x6Au8, 0x70, 0x67]);
        assert(jpeg@ =~= seq![0x6Au8, 0x70, 0x65, 0x67]);
    }
    (tif, tiff, png, jpg, jpeg)
}

/// Whether a path is on the fixed case-insensitive extension allow-list
/// {tif, tiff, png, jpg, jpeg}.
pub fn is_supported_image_path(p: &Vec<u8>) -> (r: bool)
    requires
        p@.len() < 0x1_0000_0000,
    ensures
        r == spec_is_supported_image(p@),
{
    match path_ext_lower(p) {
        None => false,
        Some(l) => {
            let (tif, tiff, png, jpg, jpeg) = supported_ext_vec();
            let ghost e = spec_ext(p@).unwrap();
            proof {
                assert(spec_lower_seq(spec_lower_seq(e)) =~= spec_lower_seq(e));
            }
            bytes_eq(&l, &tif) || bytes_eq(&l, &tiff) || bytes_eq(&l, &png) || bytes_eq(&l, &jpg)
                || bytes_eq(&l, &jpeg)
        },
    }
}

/// Whether a path names a TIFF.
pub fn is_tiff_path(p: &Vec<u8>) -> (r: bool)
    requires
        p@.len() < 0x1_0000_0000,
    ensures
        r == spec_is_tiff_path(p@),
{
    match path_ext_lower(p) {
        None => false,
        Some(l) => {
            let (tif, tiff, _png, _jpg, _jpeg) = supported_ext_vec();
            bytes_eq(&l, &tif) || bytes_eq(&l, &tiff)
        },
    }
}

/// Whether a path names a JPEG.
pub fn is_jpeg_path(p: &Vec<u8>) -> (r: bool)
    requires
        p@.len() < 0x1_0000_0000,
    ensures
        r == spec_is_jpeg_path(p@),
{
    match path_ext_lower(p) {
        None => false,
        Some(l) => {
            let (_tif, _tiff, _png, jpg, jpeg) = supported_ext_vec();
            bytes_eq(&l, &jpg) || bytes_eq(&l, &jpeg)
        },
    }
}

/// A batch-planning failure.
#[derive(Debug, Clone, Copy, PartialEq, Eq, Structural)]
pub enum BatchError {
    /// The requested output extension is not on the allow-list.
    UnsupportedOutExt,
}

/// Normalizes the requested output extension: ASCII whitespace trimmed,
/// leading dots stripped, lowercased; it must land on the allow-list.
pub open spec fn spec_is_ascii_space(b: u8) -> bool {
    b == 0x20 || (0x09 <= b <= 0x0D)
}

/// Drops leading bytes satisfying `spec_is_ascii_space`.
pub open spec fn spec_trim_front(s: Seq<u8>) -> Seq<u8>
    decreases s.len(),
{
    if s.len() > 0 && spec_is_ascii_space(s.first()) {
        spec_trim_front(s.drop_first())
    } else {
        s
    }
}

/// Drops trailing bytes satisfying `spec_is_ascii_space`.
pub open spec fn spec_trim_back(s: Seq<u8>) -> Seq<u8>
    decreases s.len(),
{
    if s.len() > 0 && spec_is_ascii_space(s.last()) {
        spec_trim_back(s.drop_last())
    } else {
        s
    }
}

/// Drops leading dots.
pub open spec fn spec_strip_dots(s: Seq<u8>) -> Seq<u8>
    decreases s.len(),
{
    if s.len() > 0 && s.first() == 0x2E {
        spec_strip_dots(s.drop_first())
    } else {
        s
    }
}

/// The normalized output extension, when acceptable.
pub open spec fn spec_normalize_out_ext(s: Seq<u8>) -> Option<Seq<u8>> {
    let l = spec_lower_seq(spec_strip_dots(spec_trim_front(spec_trim_back(s))));
    if spec_supported_ext(l) {
        Some(l)
    } else {
        None
    }
}

fn is_ascii_space(b: u8) -> (r: bool)
    ensures
        r == spec_is_ascii_space(b),
{
    b == 0x20 || (0x09 <= b && b <= 0x0D)
}

/// Normalizes the requested output extension, or rejects one off the
/// allow-list.
pub fn normalize_out_ext(s: &Vec<u8>) -> (r: Result<Vec<u8>, BatchError>)
    ensures
        match (r, spec_normalize_out_ext(s@)) {
            (Ok(v), Some(e)) => v@ == e,
            (Err(be), None) => be == BatchError::UnsupportedOutExt,
            _ => false,
        },
{
    let mut lo: usize = 0;
    let mut hi: usize = s.len();
    proof {
        assert(s@.subrange(0, s@.len() as int) =~= s@);
    }
    while hi > lo && is_ascii_space(s[hi - 1])
        invariant
            lo == 0,
            hi <= s@.len(),
            spec_trim_back(s@) == spec_trim_back(s@.subrange(0, hi as int)),
        decreases hi,
    {
        proof {
            let sub = s@.subrange(0, hi as int);
            assert(sub.last() == s@[hi - 1]);
            assert(sub.drop_last() =~= s@.subrange(0, hi - 1));
        }
        hi = hi - 1;
    }
    proof {
        let sub = s@.subrange(0, hi as int);
        if hi > 0 {
            assert(sub.last() == s@[hi - 1]);
        }
        assert(spec_trim_back(sub) == sub);
    }
    let ghost tb = spec_trim_back(s@);
    // Trim the front of the back-trimmed part, then strip the leading dots.
    while lo < hi && is_ascii_space(s[lo])
        invariant
            lo <= hi <= s@.len(),
            tb == spec_trim_back(s@),
            spec_trim_front(tb) == spec_trim_front(s@.subrange(lo as int, hi as int)),
        decreases hi - lo,
    {
        proof {
            let sub = s@.subrange(lo as int, hi as int);
            assert(sub.first() == s@[lo as int]);
            assert(sub.drop_first() =~= s@.subrange(lo + 1, hi as int));
        }
        lo = lo + 1;
    }
    proof {
        let sub = s@.subrange(lo as int, hi as int);
        if lo < hi {
            assert(sub.first() == s@[lo as int]);
        }
        assert(spec_trim_front(sub) == sub);
    }
    let ghost tf = spec_trim_front(tb);
    while lo < hi && s[lo] == 0x2E
        invariant
            lo <= hi <= s@.len(),
            tf == spec_trim_front(spec_trim_back(s@)),
            spec_strip_dots(tf) == spec_strip_dots(s@.subrange(lo as int, hi as int)),
        decreases hi - lo,
    {
        proof {
            let sub = s@.subrange(lo as int, hi as int);
            assert(sub.first() == s@[lo as int]);
            assert(sub.drop_first() =~= s@.subrange(lo + 1, hi as int));
        }
        lo = lo + 1;
    }
    proof {
        let sub = s@.subrange(lo as int, hi as int);
        if lo < hi {
            assert(sub.first() == s@[lo as int]);
        }
        assert(spec_strip_dots(sub) == sub);
    }
    let core = crate::endian::copy_range(s, lo, hi - lo);
    let l = lower_bytes(&core);
    let (tif, tiff, png, jpg, jpeg) = supported_ext_vec();
    proof {
        assert(spec_lower_seq(l@) =~= l@);
    }
    if bytes_eq(&l, &tif) || bytes_eq(&l, &tiff) || bytes_eq(&l, &png) || bytes_eq(&l, &jpg)
        || bytes_eq(&l, &jpeg) {
        Ok(l)
    } else {
        Err(BatchError::UnsupportedOutExt)
    }
}

/// The destination file name: stem, then the configured suffix, a dot, and
/// the output extension.
pub fn dest_file_name(stem: &Vec<u8>, suffix: &Vec<u8>, ext: &Vec<u8>) -> (r: Vec<u8>)
    ensures
        r@ == stem@ + suffix@ + seq![0x2Eu8] + ext@,
{
    let mut r: Vec<u8> = Vec::new();
    append_bytes(&mut r, stem);
    append_bytes(&mut r, suffix);
    r.push(0x2E);
    proof {
        assert(r@ =~= stem@ + suffix@ + seq![0x2Eu8]);
    }
    append_bytes(&mut r, ext);
    r
}

/// The sidecar path: the output path with its extension replaced by "icc",
/// or with ".icc" appended when it has none.
pub open spec fn spec_sidecar_path(p: Seq<u8>) -> Seq<u8> {
    let icc_suffix = seq![0x2Eu8, 0x69, 0x63, 0x63];
    match spec_ext(p) {
        Some(e) => p.subrange(0, p.len() - e.len() - 1) + icc_suffix,
        None => p + icc_suffix,
    }
}

pub fn sidecar_path_for(p: &Vec<u8>) -> (r: Vec<u8>)
    requires
        p@.len() < 0x1_0000_0000,
    ensures
        r@ == spec_sidecar_path(p@),
{
    let slash = last_pos(p, 0x2F);
    proof {
        lemma_last_pos_bounds(p@, 0x2F);
    }
    let start: usize = (slash + 1) as usize;
    let name = crate::endian::copy_range(p, start, p.len() - start);
    proof {
        assert(name@ =~= p@.subrange(spec_last_pos(p@, 0x2F) + 1, p@.len() as int));
    }
    let dot = last_pos(&name, 0x2E);
    proof {
        lemma_last_pos_bounds(name@, 0x2E);
    }
    let keep: usize = if dot <= 0 {
        p.len()
    } else {
        start + (dot as usize)
    };
    let mut r = crate::endian::copy_range(p, 0, keep);
    proof {
        if dot > 0 {
            let e = spec_ext(p@).unwrap();
            assert(e.len() == name@.len() - dot - 1);
            assert(r@ =~= p@.subrange(0, p@.len() - e.len() - 1));
        }
    }
    r.push(0x2E);
    r.push(0x69);
    r.push(0x63);
    r.push(0x63);
    proof {
        assert(r@ =~= spec_sidecar_path(p@));
    }
    r
}

/// One file's recorded result.
#[derive(Debug, Clone, Copy, PartialEq, Eq, Structural)]
pub enum Outcome {
    /// Converted and written.
    Converted,
    /// Destination existed and overwriting was off: logged, non-fatal.
    Skipped,
    /// The conversion failed; the batch goes on.
    Failed,
}

/// What happens to one file: an existing destination without the overwrite
/// flag is skipped; otherwise the conversion's own result decides.
pub open spec fn spec_outcome(dest_exists: bool, overwrite: bool, conversion_ok: bool) -> Outcome {
    if dest_exists && !overwrite {
        Outcome::Skipped
    } else if conversion_ok {
        Outcome::Converted
    } else {
        Outcome::Failed
    }
}

/// Whether a file is skipped before any work is done on it.
pub fn should_skip(dest_exists: bool, overwrite: bool) -> (r: bool)
    ensures
        r == (dest_exists && !overwrite),
{
    dest_exists && !overwrite
}

/// How many entries of `s` equal `o`.
pub open spec fn spec_count(s: Seq<Outcome>, o: Outcome) -> int
    decreases s.len(),
{
    if s.len() == 0 {
        0
    } else {
        spec_count(s.drop_last(), o) + (if s.last() == o {
            1int
        } else {
            0
        })
    }
}

/// The end-of-run totals.
#[derive(Debug, Clone, Copy, PartialEq, Eq, Structural)]
pub struct Summary {
    pub converted: usize,
    pub skipped: usize,
    pub failed: usize,
}

proof fn lemma_count_bound(s: Seq<Outcome>, o: Outcome)
    ensures
        0 <= spec_count(s, o) <= s.len(),
    decreases s.len(),
{
    if s.len() > 0 {
        lemma_count_bound(s.drop_last(), o);
    }
}

/// Partitions the recorded outcomes into the three totals. The batch as a
/// whole fails only when `failed` is nonzero, and only after every file has
/// been attempted.
pub fn summarize(outcomes: &Vec<Outcome>) -> (r: Summary)
    ensures
        r.converted == spec_count(outcomes@, Outcome::Converted),
        r.skipped == spec_count(outcomes@, Outcome::Skipped),
        r.failed == spec_count(outcomes@, Outcome::Failed),
        r.converted + r.skipped + r.failed == outcomes@.len(),
{
    let mut converted: usize = 0;
    let mut skipped: usize = 0;
    let mut failed: usize = 0;
    let mut i: usize = 0;
    while i < outcomes.len()
        invariant
            i <= outcomes@.len(),
            converted == spec_count(outcomes@.subrange(0, i as int), Outcome::Converted),
            skipped == spec_count(outcomes@.subrange(0, i as int), Outcome::Skipped),
            failed == spec_count(outcomes@.subrange(0, i as int), Outcome::Failed),
            converted + skipped + failed == i,
        decreases outcomes@.len() - i,
    {
        proof {
            let sub2 = outcomes@.subrange(0, i + 1);
            assert(sub2.drop_last() =~= outcomes@.subrange(0, i as int));
            assert(sub2.last() == outcomes@[i as int]);
        }
        match outcomes[i] {
            Outcome::Converted => {
                converted = converted + 1;
            },
            Outcome::Skipped => {
                skipped = skipped + 1;
            },
            Outcome::Failed => {
                failed = failed + 1;
            },
        }
        i = i + 1;
    }
    proof {
        assert(outcomes@.subrange(0, outcomes@.len() as int) =~= outcomes@);
    }
    Summary { converted, skipped, failed }
}

/// The batch's final verdict, taken once every file has been attempted and
/// recorded: the batch fails exactly when some file failed; skips and
/// successes never fail it.
pub fn batch_failed(s: &Summary) -> (r: bool)
    ensures
        r == (s.failed > 0),
{
    s.failed > 0
}

/// The outcomes of a whole batch, one file at a time.
pub open spec fn spec_outcomes(exists: Seq<bool>, overwrite: bool, ok: Seq<bool>) -> Seq<Outcome>
    recommends
        exists.len() == ok.len(),
    decreases exists.len(),
{
    if exists.len() == 0 {
        Seq::empty()
    } else {
        spec_outcomes(exists.drop_last(), overwrite, ok.drop_last()).push(
            spec_outcome(exists.last(), overwrite, ok.last()),
        )
    }
}

/// How many entries of a boolean sequence are set.
pub open spec fn spec_count_true(s: Seq<bool>) -> int
    decreases s.len(),
{
    if s.len() == 0 {
        0
    } else {
        spec_count_true(s.drop_last()) + (if s.last() {
            1int
        } else {
            0
        })
    }
}

/// Law: with overwriting off, a batch of N files of which K destinations
/// pre-exist skips exactly K files, and the number converted is N minus K
/// minus the number that failed.
pub proof fn lemma_batch_accounting(exists: Seq<bool>, ok: Seq<bool>)
    requires
        exists.len() == ok.len(),
    ensures
        spec_count(spec_outcomes(exists, false, ok), Outcome::Skipped) == spec_count_true(exists),
        spec_count(spec_outcomes(exists, false, ok), Outcome::Converted) == exists.len()
            - spec_count_true(exists) - spec_count(
            spec_outcomes(exists, false, ok),
            Outcome::Failed,
        ),
    decreases exists.len(),
{
    if exists.len() > 0 {
        lemma_batch_accounting(exists.drop_last(), ok.drop_last());
        let outs = spec_outcomes(exists, false, ok);
        let pre = spec_outcomes(exists.drop_last(), false, ok.drop_last());
        assert(outs.drop_last() =~= pre);
        assert(outs.last() == spec_outcome(exists.last(), false, ok.last()));
    }
}

/// Byte-wise lexicographic order on paths: the order the discovered set is
/// dispatched in, independent of filesystem enumeration order.
pub open spec fn spec_lex_le(a: Seq<u8>, b: Seq<u8>) -> bool
    decreases a.len(),
{
    if a.len() == 0 {
        true
    } else if b.len() == 0 {
        false
    } else if a.first() < b.first() {
        true
    } else if a.first() > b.first() {
        false
    } else {
        spec_lex_le(a.drop_first(), b.drop_first())
    }
}

/// The order is total: two paths compare one way or the other.
pub proof fn lemma_lex_total(a: Seq<u8>, b: Seq<u8>)
    ensures
        spec_lex_le(a, b) || spec_lex_le(b, a),
    decreases a.len(),
{
    if a.len() > 0 && b.len() > 0 && a.first() == b.first() {
        lemma_lex_total(a.drop_first(), b.drop_first());
    }
}

/// Lexicographic comparison of two byte paths.
pub fn lex_le(a: &Vec<u8>, b: &Vec<u8>) -> (r: bool)
    ensures
        r == spec_lex_le(a@, b@),
{
    let mut i: usize = 0;
    proof {
        assert(a@.subrange(0, a@.len() as int) =~= a@);
        assert(b@.subrange(0, b@.len() as int) =~= b@);
    }
    while i < a.len() && i < b.len()
        invariant
            i <= a@.len(),
            i <= b@.len(),
            spec_lex_le(a@, b@) == spec_lex_le(
                a@.subrange(i as int, a@.len() as int),
                b@.subrange(i as int, b@.len() as int),
            ),
            forall|k: int| 0 <= k < i ==> a@[k] == b@[k],
        decreases a@.len() - i,
    {
        proof {
            let ta = a@.subrange(i as int, a@.len() as int);
            let tb = b@.subrange(i as int, b@.len() as int);
            assert(ta.first() == a@[i as int]);
            assert(tb.first() == b@[i as int]);
            assert(ta.drop_first() =~= a@.subrange(i + 1, a@.len() as int));
            assert(tb.drop_first() =~= b@.subrange(i + 1, b@.len() as int));
        }
        if a[i] < b[i] {
            return true;
        }
        if a[i] > b[i] {
            return false;
        }
        i = i + 1;
    }
    proof {
        let ta = a@.subrange(i as int, a@.len() as int);
        let tb = b@.subrange(i as int, b@.len() as int);
        if i >= a@.len() {
            assert(ta.len() == 0);
        } else {
            assert(tb.len() == 0);
            assert(ta.len() > 0);
        }
    }
    a.len() <= b.len()
}

/// The views of a sequence of byte paths.
pub open spec fn pv(s: Seq<Vec<u8>>) -> Seq<Seq<u8>> {
    s.map_values(|p: Vec<u8>| p@)
}

/// Inserting one path into a lexicographically sorted sequence, after any
/// equal paths (stable).
pub open spec fn spec_insert_path(p: Seq<u8>, s: Seq<Seq<u8>>) -> Seq<Seq<u8>>
    decreases s.len(),
{
    if s.len() == 0 {
        seq![p]
    } else if spec_lex_le(s[0], p) {
        seq![s[0]] + spec_insert_path(p, s.drop_first())
    } else {
        seq![p] + s
    }
}

/// Stable insertion sort of paths, in discovery order.
pub open spec fn spec_sort_paths(s: Seq<Seq<u8>>) -> Seq<Seq<u8>>
    decreases s.len(),
{
    if s.len() == 0 {
        Seq::empty()
    } else {
        spec_insert_path(s.last(), spec_sort_paths(s.drop_last()))
    }
}

/// Pairwise lexicographic sortedness.
pub open spec fn spec_paths_sorted(s: Seq<Seq<u8>>) -> bool {
    forall|i: int, j: int| 0 <= i < j < s.len() ==> spec_lex_le(s[i], s[j])
}

proof fn lemma_insert_path_ensures(p: Seq<u8>, s: Seq<Seq<u8>>)
    requires
        spec_paths_sorted(s),
    ensures
        spec_paths_sorted(spec_insert_path(p, s)),
        spec_insert_path(p, s).to_multiset() == s.to_multiset().insert(p),
        spec_insert_path(p, s).len() == s.len() + 1,
    decreases s.len(),
{
    broadcast use vstd::seq_lib::group_to_multiset_ensures;
    broadcast use vstd::multiset::group_multiset_axioms;

    if s.len() == 0 {
        assert(spec_insert_path(p, s) =~= Seq::empty().push(p));
        assert(Seq::<Seq<u8>>::empty().push(p).to_multiset() == s.to_multiset().insert(p));
    } else if spec_lex_le(s[0], p) {
        lemma_insert_path_ensures(p, s.drop_first());
        let t = spec_insert_path(p, s.drop_first());
        let r = seq![s[0]] + t;
        assert(spec_insert_path(p, s) == r);
        assert forall|i: int, j: int| 0 <= i < j < r.len() implies spec_lex_le(r[i], r[j]) by {
            if i == 0 {
                let e = r[j];
                assert(t[j - 1] == e);
                assert(t.to_multiset().contains(e));
                assert(s.drop_first().to_multiset().insert(p).contains(e));
                if e == p {
                    assert(spec_lex_le(s[0], p));
                } else {
                    assert(s.drop_first().to_multiset().contains(e));
                    assert(s.drop_first().contains(e));
                    let k = choose|k: int|
                        0 <= k < s.drop_first().len() && s.drop_first()[k] == e;
                    assert(s[k + 1] == e);
                    assert(spec_lex_le(s[0], s[k + 1]));
                }
            } else {
                assert(r[i] == t[i - 1] && r[j] == t[j - 1]);
            }
        }
        assert(r.to_multiset() == t.to_multiset().insert(s[0])) by {
            assert(r =~= Seq::empty().push(s[0]) + t);
            vstd::seq_lib::lemma_multiset_commutative(Seq::empty().push(s[0]), t);
            assert(Seq::<Seq<u8>>::empty().push(s[0]).to_multiset() == Multiset::empty().insert(
                s[0],
            ));
            assert(Multiset::empty().insert(s[0]).add(t.to_multiset()) =~= t.to_multiset().insert(
                s[0],
            ));
        }
        assert(s.to_multiset() == s.drop_first().to_multiset().insert(s[0])) by {
            assert(s =~= Seq::empty().push(s[0]) + s.drop_first());
            vstd::seq_lib::lemma_multiset_commutative(Seq::empty().push(s[0]), s.drop_first());
            assert(Seq::<Seq<u8>>::empty().push(s[0]).to_multiset() == Multiset::empty().insert(
                s[0],
            ));
            assert(Multiset::empty().insert(s[0]).add(s.drop_first().to_multiset())
                =~= s.drop_first().to_multiset().insert(s[0]));
        }
        assert(r.to_multiset() =~= s.to_multiset().insert(p));
    } else {
        let r = seq![p] + s;
        assert(spec_insert_path(p, s) == r);
        lemma_lex_total(s[0], p);
        assert(spec_lex_le(p, s[0]));
        assert forall|i: int, j: int| 0 <= i < j < r.len() implies spec_lex_le(r[i], r[j]) by {
            if i == 0 {
                if j == 1 {
                    assert(r[1] == s[0]);
                } else {
                    assert(r[j] == s[j - 1]);
                    assert(spec_lex_le(s[0], s[j - 1]));
                    lemma_lex_trans(p, s[0], s[j - 1]);
                }
            } else {
                assert(r[i] == s[i - 1] && r[j] == s[j - 1]);
            }
        }
        assert(r.to_multiset() == s.to_multiset().insert(p)) by {
            assert(r =~= Seq::empty().push(p) + s);
            vstd::seq_lib::lemma_multiset_commutative(Seq::empty().push(p), s);
            assert(Seq::<Seq<u8>>::empty().push(p).to_multiset() == Multiset::empty().insert(p));
            assert(Multiset::empty().insert(p).add(s.to_multiset()) =~= s.to_multiset().insert(p));
        }
    }
}

/// Lexicographic order is transitive.
pub proof fn lemma_lex_trans(a: Seq<u8>, b: Seq<u8>, c: Seq<u8>)
    requires
        spec_lex_le(a, b),
        spec_lex_le(b, c),
    ensures
        spec_lex_le(a, c),
    decreases a.len(),
{
    if a.len() > 0 && b.len() > 0 && c.len() > 0 {
        if a.first() == b.first() && b.first() == c.first() {
            lemma_lex_trans(a.drop_first(), b.drop_first(), c.drop_first());
        }
    }
}

/// The sort's contract: lexicographic order, the same paths.
pub proof fn lemma_sort_paths_ensures(s: Seq<Seq<u8>>)
    ensures
        spec_paths_sorted(spec_sort_paths(s)),
        spec_sort_paths(s).to_multiset() == s.to_multiset(),
        spec_sort_paths(s).len() == s.len(),
    decreases s.len(),
{
    broadcast use vstd::seq_lib::group_to_multiset_ensures;

    if s.len() > 0 {
        lemma_sort_paths_ensures(s.drop_last());
        lemma_insert_path_ensures(s.last(), spec_sort_paths(s.drop_last()));
        assert(s =~= s.drop_last().push(s.last()));
        assert(s.drop_last().push(s.last()).to_multiset() == s.drop_last().to_multiset().insert(
            s.last(),
        ));
    }
}

proof fn lemma_insert_path_at(p: Seq<u8>, s: Seq<Seq<u8>>, q: int)
    requires
        0 <= q <= s.len(),
        forall|k: int| 0 <= k < q ==> spec_lex_le(s[k], p),
        q < s.len() ==> !spec_lex_le(s[q], p),
    ensures
        spec_insert_path(p, s) == s.insert(q, p),
    decreases s.len(),
{
    if s.len() == 0 {
        assert(spec_insert_path(p, s) =~= s.insert(0, p));
    } else if spec_lex_le(s[0], p) {
        assert(q > 0);
        lemma_insert_path_at(p, s.drop_first(), q - 1);
        assert(seq![s[0]] + s.drop_first().insert(q - 1, p) =~= s.insert(q, p));
    } else {
        assert(q == 0);
        assert(spec_insert_path(p, s) =~= s.insert(0, p));
    }
}

/// Inserts one path into a lexicographically sorted vector, after any equal
/// paths.
fn insert_path(sorted: &mut Vec<Vec<u8>>, p: Vec<u8>)
    ensures
        pv(final(sorted)@) == spec_insert_path(p@, pv(old(sorted)@)),
{
    let ghost s0 = pv(sorted@);
    let ghost pval = p@;
    let mut q: usize = 0;
    while q < sorted.len() && lex_le(&sorted[q], &p)
        invariant
            q <= sorted@.len(),
            pv(sorted@) == s0,
            pval == p@,
            forall|k: int| 0 <= k < q ==> spec_lex_le(s0[k], pval),
        decreases sorted@.len() - q,
    {
        proof {
            assert(s0[q as int] == sorted@[q as int]@);
        }
        q = q + 1;
    }
    proof {
        if q < sorted@.len() {
            assert(s0[q as int] == sorted@[q as int]@);
        }
        lemma_insert_path_at(pval, s0, q as int);
    }
    sorted.insert(q, p);
    proof {
        assert(pv(sorted@) =~= s0.insert(q as int, pval));
    }
}

/// Sorts the discovered file list into lexicographic path order, so that
/// dispatch and diagnostics are reproducible whatever order the filesystem
/// enumerated the files in.
pub fn sort_paths(paths: Vec<Vec<u8>>) -> (r: Vec<Vec<u8>>)
    ensures
        pv(r@) == spec_sort_paths(pv(paths@)),
{
    let ghost orig = pv(paths@);
    let mut rest = paths;
    let mut sorted: Vec<Vec<u8>> = Vec::new();
    let ghost mut done: Seq<Seq<u8>> = Seq::empty();
    proof {
        assert(done + pv(rest@) =~= orig);
        assert(pv(sorted@) =~= spec_sort_paths(done));
    }
    while rest.len() > 0
        invariant
            done + pv(rest@) == orig,
            pv(sorted@) == spec_sort_paths(done),
        decreases rest@.len(),
    {
        let ghost rest0 = pv(rest@);
        let p = rest.remove(0);
        let ghost pval = p@;
        proof {
            assert(rest0[0] == pval);
            assert(pv(rest@) =~= rest0.drop_first());
        }
        insert_path(&mut sorted, p);
        proof {
            let done2 = done.push(pval);
            assert(done2.drop_last() =~= done);
            assert(done2.last() == pval);
            assert(spec_sort_paths(done2) == spec_insert_path(pval, spec_sort_paths(done)));
            assert(done2 + rest0.drop_first() =~= orig);
        }
        proof {
            done = done.push(pval);
        }
    }
    proof {
        assert(pv(rest@) =~= Seq::empty());
        assert(done =~= orig);
    }
    sorted
}

} // verus!
