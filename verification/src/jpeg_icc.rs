//! Reassembly of an ICC profile from a JPEG's APP2 marker segments. Each
//! carrier segment starts with the fixed 12-byte signature "ICC_PROFILE"
//! and a NUL, then a one-byte sequence number and a one-byte chunk count,
//! then a slice of the profile. Chunks are collected in file order, sorted
//! by sequence number — not by position in the file — and concatenated. An
//! empty or absent profile in a well-formed scan means "no embedded
//! profile", never an error; a malformed segment — a length field below 2,
//! or a body running past the end of the data — is a format error.
use vstd::prelude::*;

use crate::endian::copy_range;
use vstd::multiset::Multiset;
use vstd::seq_lib::group_to_multiset_ensures;

verus! {

/// One collected chunk: its sequence number and its payload bytes.
pub struct IccChunk {
    pub seq_no: u8,
    pub data: Vec<u8>,
}

impl View for IccChunk {
    type V = (u8, Seq<u8>);

    open spec fn view(&self) -> (u8, Seq<u8>) {
        (self.seq_no, self.data@)
    }
}

/// The views of a sequence of chunks.
pub open spec fn cv(s: Seq<IccChunk>) -> Seq<(u8, Seq<u8>)> {
    s.map_values(|c: IccChunk| c@)
}

/// The 12-byte APP2 carrier signature: "ICC_PROFILE" and a NUL.
pub open spec fn spec_icc_sig() -> Seq<u8> {
    seq![0x49u8, 0x43, 0x43, 0x5F, 0x50, 0x52, 0x4F, 0x46, 0x49, 0x4C, 0x45, 0x00]
}

/// A malformed marker segment: a length field below 2, or a segment body
/// running past the end of the data.
#[derive(Debug, Clone, Copy, PartialEq, Eq, Structural)]
pub enum JpegIccError {
    MalformedSegment,
}

/// The marker scan from position `i`: skips filler until a 0xFF, stops at
/// end-of-image or start-of-scan, reads each segment's big-endian length,
/// and collects the APP2 segments that carry the signature; their sequence
/// number is the byte after the signature, their payload what follows the
/// chunk-count byte. A segment whose length field is below 2 or whose body
/// overruns the data fails, exactly then.
pub open spec fn spec_scan(d: Seq<u8>, i: nat) -> Result<Seq<(u8, Seq<u8>)>, JpegIccError>
    decreases d.len() - i,
{
    if i + 4 > d.len() {
        Ok(Seq::empty())
    } else if d[i as int] != 0xFF {
        spec_scan(d, i + 1)
    } else {
        let marker = d[(i + 1) as int];
        if marker == 0xD9 || marker == 0xDA {
            Ok(Seq::empty())
        } else {
            let seg_len = (d[(i + 2) as int] * 256 + d[(i + 3) as int]) as nat;
            let k = i + 4;
            if seg_len < 2 || k + (seg_len - 2) > d.len() {
                Err(JpegIccError::MalformedSegment)
            } else {
                let seg = d.subrange(k as int, (k + (seg_len - 2)) as int);
                match spec_scan(d, (k + (seg_len - 2)) as nat) {
                    Err(e) => Err(e),
                    Ok(rest) => if marker == 0xE2 && seg.len() > 14 && seg.subrange(0, 12)
                        == spec_icc_sig() {
                        Ok(seq![(seg[12], seg.subrange(14, seg.len() as int))] + rest)
                    } else {
                        Ok(rest)
                    },
                }
            }
        }
    }
}

/// Prepends already-collected chunks to a scan's result; an error stands.
pub open spec fn sp_prepend(
    pre: Seq<(u8, Seq<u8>)>,
    r: Result<Seq<(u8, Seq<u8>)>, JpegIccError>,
) -> Result<Seq<(u8, Seq<u8>)>, JpegIccError> {
    match r {
        Ok(s) => Ok(pre + s),
        Err(e) => Err(e),
    }
}

/// All ICC chunks of a JPEG byte stream: nothing unless it starts with the
/// SOI marker, else the scan from right after it.
pub open spec fn spec_jpeg_chunks(d: Seq<u8>) -> Result<Seq<(u8, Seq<u8>)>, JpegIccError> {
    if d.len() < 4 || d[0] != 0xFF || d[1] != 0xD8 {
        Ok(Seq::empty())
    } else {
        spec_scan(d, 2)
    }
}

/// Inserting one chunk into a sequence sorted by sequence number, after any
/// chunks with the same number (so repeated insertion is a stable sort).
pub open spec fn spec_insert(c: (u8, Seq<u8>), s: Seq<(u8, Seq<u8>)>) -> Seq<(u8, Seq<u8>)>
    decreases s.len(),
{
    if s.len() == 0 {
        seq![c]
    } else if c.0 < s[0].0 {
        seq![c] + s
    } else {
        seq![s[0]] + spec_insert(c, s.drop_first())
    }
}

/// Stable insertion sort by sequence number, in file order.
pub open spec fn spec_sort(s: Seq<(u8, Seq<u8>)>) -> Seq<(u8, Seq<u8>)>
    decreases s.len(),
{
    if s.len() == 0 {
        Seq::empty()
    } else {
        spec_insert(s.last(), spec_sort(s.drop_last()))
    }
}

/// Non-strictly ascending sequence numbers.
pub open spec fn sorted_keys(s: Seq<(u8, Seq<u8>)>) -> bool {
    forall|i: int, j: int| 0 <= i < j < s.len() ==> s[i].0 <= s[j].0
}

/// Strictly ascending sequence numbers.
pub open spec fn strictly_sorted_keys(s: Seq<(u8, Seq<u8>)>) -> bool {
    forall|i: int, j: int| 0 <= i < j < s.len() ==> s[i].0 < s[j].0
}

/// No two chunks share a sequence number.
pub open spec fn distinct_keys(s: Seq<(u8, Seq<u8>)>) -> bool {
    forall|i: int, j: int| 0 <= i < j < s.len() ==> s[i].0 != s[j].0
}

/// The payloads of a chunk sequence concatenated in order.
pub open spec fn spec_concat(s: Seq<(u8, Seq<u8>)>) -> Seq<u8>
    decreases s.len(),
{
    if s.len() == 0 {
        Seq::empty()
    } else {
        spec_concat(s.drop_last()) + s.last().1
    }
}

/// The reassembled profile: nothing when no chunk was found or the sorted
/// concatenation is empty; a malformed segment fails.
pub open spec fn spec_jpeg_icc(d: Seq<u8>) -> Result<Option<Seq<u8>>, JpegIccError> {
    match spec_jpeg_chunks(d) {
        Err(e) => Err(e),
        Ok(chunks) => if chunks.len() == 0 {
            Ok(None)
        } else {
            let out = spec_concat(spec_sort(chunks));
            if out.len() == 0 {
                Ok(None)
            } else {
                Ok(Some(out))
            }
        },
    }
}

proof fn lemma_insert_ensures(c: (u8, Seq<u8>), s: Seq<(u8, Seq<u8>)>)
    requires
        sorted_keys(s),
    ensures
        sorted_keys(spec_insert(c, s)),
        spec_insert(c, s).to_multiset() == s.to_multiset().insert(c),
        spec_insert(c, s).len() == s.len() + 1,
    decreases s.len(),
{
    broadcast use group_to_multiset_ensures;

    if s.len() == 0 {
        assert(spec_insert(c, s) =~= Seq::empty().push(c));
        assert(Seq::<(u8, Seq<u8>)>::empty().push(c).to_multiset() == s.to_multiset().insert(c));
    } else if c.0 < s[0].0 {
        let r = seq![c] + s;
        assert(r =~= s.insert(0, c));
        assert(forall|j: int| 0 < j < r.len() ==> r[j] == s[j - 1]);
        assert(sorted_keys(r));
        assert(r =~= Seq::empty().push(c) + s);
        assert((Seq::empty().push(c) + s).to_multiset() == s.to_multiset().insert(c)) by {
            vstd::seq_lib::lemma_multiset_commutative(Seq::empty().push(c), s);
            assert(Seq::<(u8, Seq<u8>)>::empty().push(c).to_multiset() == Multiset::empty().insert(
                c,
            ));
            assert(Multiset::empty().insert(c).add(s.to_multiset()) =~= s.to_multiset().insert(c));
        }
    } else {
        lemma_insert_ensures(c, s.drop_first());
        let t = spec_insert(c, s.drop_first());
        let r = seq![s[0]] + t;
        assert(spec_insert(c, s) == r);
        // Sortedness: the head is no greater than anything in the tail.
        assert forall|i: int, j: int| 0 <= i < j < r.len() implies r[i].0 <= r[j].0 by {
            if i == 0 {
                let e = r[j];
                assert(t[j - 1] == e);
                assert(t.to_multiset().contains(e));
                assert(s.drop_first().to_multiset().insert(c).contains(e));
                if e == c {
                    assert(s[0].0 <= c.0);
                } else {
                    assert(s.drop_first().to_multiset().contains(e));
                    assert(s.drop_first().contains(e));
                    let k = choose|k: int|
                        0 <= k < s.drop_first().len() && s.drop_first()[k] == e;
                    assert(s[k + 1] == e);
                    assert(s[0].0 <= s[k + 1].0);
                }
            } else {
                assert(r[i] == t[i - 1] && r[j] == t[j - 1]);
            }
        }
        // Multiset: head out, insert into tail, head back in.
        assert(r =~= t.insert(0, s[0]));
        assert(r.to_multiset() == t.to_multiset().insert(s[0])) by {
            assert(r =~= Seq::empty().push(s[0]) + t);
            vstd::seq_lib::lemma_multiset_commutative(Seq::empty().push(s[0]), t);
            assert(Seq::<(u8, Seq<u8>)>::empty().push(s[0]).to_multiset() == Multiset::empty()
                .insert(s[0]));
            assert(Multiset::empty().insert(s[0]).add(t.to_multiset()) =~= t.to_multiset().insert(
                s[0],
            ));
        }
        assert(s =~= Seq::empty().push(s[0]) + s.drop_first());
        assert(s.to_multiset() == s.drop_first().to_multiset().insert(s[0])) by {
            vstd::seq_lib::lemma_multiset_commutative(Seq::empty().push(s[0]), s.drop_first());
            assert(Seq::<(u8, Seq<u8>)>::empty().push(s[0]).to_multiset() == Multiset::empty()
                .insert(s[0]));
            assert(Multiset::empty().insert(s[0]).add(s.drop_first().to_multiset())
                =~= s.drop_first().to_multiset().insert(s[0]));
        }
        assert(r.to_multiset() =~= s.to_multiset().insert(c));
    }
}

/// The sort's contract: ascending sequence numbers and the same chunks.
pub proof fn lemma_sort_ensures(s: Seq<(u8, Seq<u8>)>)
    ensures
        sorted_keys(spec_sort(s)),
        spec_sort(s).to_multiset() == s.to_multiset(),
        spec_sort(s).len() == s.len(),
    decreases s.len(),
{
    broadcast use group_to_multiset_ensures;

    if s.len() > 0 {
        lemma_sort_ensures(s.drop_last());
        lemma_insert_ensures(s.last(), spec_sort(s.drop_last()));
        assert(s =~= s.drop_last().push(s.last()));
        assert(s.drop_last().push(s.last()).to_multiset() == s.drop_last().to_multiset().insert(
            s.last(),
        ));
    }
}

/// Two sequences sorted by sequence number with the same chunks are equal,
/// provided one of them repeats no sequence number.
pub proof fn lemma_sorted_distinct_unique(x: Seq<(u8, Seq<u8>)>, y: Seq<(u8, Seq<u8>)>)
    requires
        sorted_keys(x),
        sorted_keys(y),
        distinct_keys(x),
        x.to_multiset() == y.to_multiset(),
    ensures
        x == y,
    decreases x.len(),
{
    broadcast use group_to_multiset_ensures;
    broadcast use vstd::multiset::group_multiset_axioms;

    if x.len() == 0 {
        assert(y.to_multiset().len() == 0);
        assert(x =~= y);
    } else {
        assert(x.to_multiset().contains(x[0]));
        assert(y.to_multiset().len() == x.to_multiset().len());
        assert(x.to_multiset().len() == x.len());
        assert(y.to_multiset().len() == y.len());
        assert(y.len() == x.len());
        assert(y.to_multiset().contains(y[0]));
        assert(x.to_multiset().contains(y[0]));
        assert(x.contains(y[0]));
        let i = choose|i: int| 0 <= i < x.len() && x[i] == y[0];
        assert(y.contains(x[0]));
        let j = choose|j: int| 0 <= j < y.len() && y[j] == x[0];
        // The two heads carry the same minimal sequence number.
        assert(x[0].0 <= x[i].0);
        assert(y[0].0 <= y[j].0);
        assert(x[0].0 == y[0].0);
        // Head keys equal and x's keys distinct: the witness is x's head.
        assert(i == 0);
        assert(x[0] == y[0]);
        assert(x.drop_first() =~= x.remove(0));
        assert(x.remove(0).to_multiset() == x.to_multiset().remove(x[0]));
        assert(x.drop_first().to_multiset() == x.to_multiset().remove(x[0]));
        assert(y.drop_first() =~= y.remove(0));
        assert(y.remove(0).to_multiset() == y.to_multiset().remove(y[0]));
        assert(y.drop_first().to_multiset() == y.to_multiset().remove(y[0]));
        assert(forall|p: int, q: int|
            0 <= p < q < x.drop_first().len() ==> x.drop_first()[p] == x[p + 1]
                && x.drop_first()[q] == x[q + 1]);
        lemma_sorted_distinct_unique(x.drop_first(), y.drop_first());
        assert(x =~= Seq::empty().push(x[0]) + x.drop_first());
        assert(y =~= Seq::empty().push(y[0]) + y.drop_first());
        assert(x =~= y);
    }
}

/// Law: chunks supplied out of file order but with ascending sequence
/// numbers reassemble identically to the same chunks in order. `a` is the
/// in-order sequence (strictly ascending numbers), `b` any rearrangement of
/// the same chunks; both sort and concatenate to the same profile bytes.
pub proof fn lemma_reassembly_order_independent(a: Seq<(u8, Seq<u8>)>, b: Seq<(u8, Seq<u8>)>)
    requires
        strictly_sorted_keys(a),
        a.to_multiset() == b.to_multiset(),
    ensures
        spec_sort(b) == a,
        spec_concat(spec_sort(b)) == spec_concat(spec_sort(a)),
{
    lemma_sort_ensures(a);
    lemma_sort_ensures(b);
    assert(sorted_keys(a));
    assert(distinct_keys(a));
    lemma_sorted_distinct_unique(a, spec_sort(a));
    lemma_sorted_distinct_unique(a, spec_sort(b));
}

/// Where a chunk with this sequence number is inserted: after every chunk
/// whose number is not greater.
proof fn lemma_insert_at(c: (u8, Seq<u8>), s: Seq<(u8, Seq<u8>)>, p: int)
    requires
        0 <= p <= s.len(),
        forall|k: int| 0 <= k < p ==> s[k].0 <= c.0,
        p < s.len() ==> c.0 < s[p].0,
    ensures
        spec_insert(c, s) == s.insert(p, c),
    decreases s.len(),
{
    if s.len() == 0 {
        assert(spec_insert(c, s) =~= s.insert(0, c));
    } else if c.0 < s[0].0 {
        assert(p == 0);
        assert(spec_insert(c, s) =~= s.insert(0, c));
    } else {
        assert(s[0].0 <= c.0);
        assert(p > 0);
        lemma_insert_at(c, s.drop_first(), p - 1);
        assert(seq![s[0]] + s.drop_first().insert(p - 1, c) =~= s.insert(p, c));
    }
}

/// Inserts one chunk into a vector sorted by sequence number, after any
/// chunks with the same number.
fn insert_chunk(sorted: &mut Vec<IccChunk>, c: IccChunk)
    ensures
        cv(final(sorted)@) == spec_insert(c@, cv(old(sorted)@)),
{
    let ghost s0 = cv(sorted@);
    let ghost cval = c@;
    let key = c.seq_no;
    let mut p: usize = 0;
    while p < sorted.len() && sorted[p].seq_no <= key
        invariant
            p <= sorted@.len(),
            cv(sorted@) == s0,
            cval.0 == key,
            forall|k: int| 0 <= k < p ==> s0[k].0 <= cval.0,
        decreases sorted@.len() - p,
    {
        proof {
            assert(s0[p as int] == sorted@[p as int]@);
            assert(s0[p as int].0 <= cval.0);
        }
        p = p + 1;
    }
    proof {
        if p < sorted@.len() {
            assert(s0[p as int] == sorted@[p as int]@);
        }
        lemma_insert_at(cval, s0, p as int);
    }
    sorted.insert(p, c);
    proof {
        assert(cv(sorted@) =~= s0.insert(p as int, cval));
    }
}

/// Stable sort of the collected chunks by sequence number.
fn sort_chunks(chunks: Vec<IccChunk>) -> (r: Vec<IccChunk>)
    ensures
        cv(r@) == spec_sort(cv(chunks@)),
{
    let ghost orig = cv(chunks@);
    let mut rest = chunks;
    let mut sorted: Vec<IccChunk> = Vec::new();
    let ghost mut done: Seq<(u8, Seq<u8>)> = Seq::empty();
    proof {
        assert(done + cv(rest@) =~= orig);
        assert(cv(sorted@) =~= spec_sort(done));
    }
    while rest.len() > 0
        invariant
            done + cv(rest@) == orig,
            cv(sorted@) == spec_sort(done),
        decreases rest@.len(),
    {
        let ghost rest0 = cv(rest@);
        let c = rest.remove(0);
        let ghost cval = c@;
        proof {
            assert(rest0[0] == cval);
            assert(cv(rest@) =~= rest0.drop_first());
        }
        insert_chunk(&mut sorted, c);
        proof {
            let done2 = done.push(cval);
            assert(done2.drop_last() =~= done);
            assert(done2.last() == cval);
            assert(spec_sort(done2) == spec_insert(cval, spec_sort(done)));
            assert(done2 + rest0.drop_first() =~= orig);
        }
        proof {
            done = done.push(cval);
        }
    }
    proof {
        assert(cv(rest@) =~= Seq::empty());
        assert(done =~= orig);
    }
    sorted
}

/// Whether a segment carries the ICC signature and enough bytes for the
/// sequence number, the chunk count and a payload.
fn is_icc_carrier(seg: &Vec<u8>) -> (r: bool)
    ensures
        r == (seg@.len() > 14 && seg@.subrange(0, 12) == spec_icc_sig()),
{
    if seg.len() <= 14 {
        return false;
    }
    let ok = seg[0] == 0x49 && seg[1] == 0x43 && seg[2] == 0x43 && seg[3] == 0x5F && seg[4]
        == 0x50 && seg[5] == 0x52 && seg[6] == 0x4F && seg[7] == 0x46 && seg[8] == 0x49 && seg[9]
        == 0x4C && seg[10] == 0x45 && seg[11] == 0x00;
    proof {
        let sub = seg@.subrange(0, 12);
        assert(sub[0] == seg@[0] && sub[1] == seg@[1] && sub[2] == seg@[2] && sub[3] == seg@[3]
            && sub[4] == seg@[4] && sub[5] == seg@[5] && sub[6] == seg@[6] && sub[7] == seg@[7]
            && sub[8] == seg@[8] && sub[9] == seg@[9] && sub[10] == seg@[10] && sub[11]
            == seg@[11]);
        if ok {
            assert(sub =~= spec_icc_sig());
        } else {
            assert(sub != spec_icc_sig());
        }
    }
    ok
}

/// Collects the ICC chunks of a JPEG byte stream in file order, failing on
/// a malformed marker segment.
fn jpeg_icc_chunks(d: &Vec<u8>) -> (r: Result<Vec<IccChunk>, JpegIccError>)
    ensures
        match (r, spec_jpeg_chunks(d@)) {
            (Ok(v), Ok(s)) => cv(v@) == s,
            (Err(e1), Err(e2)) => e1 == e2,
            _ => false,
        },
{
    let dlen = d.len();
    let mut chunks: Vec<IccChunk> = Vec::new();
    if dlen < 4 || d[0] != 0xFF || d[1] != 0xD8 {
        proof {
            assert(cv(chunks@) =~= Seq::<(u8, Seq<u8>)>::empty());
        }
        return Ok(chunks);
    }
    let mut i: usize = 2;
    let mut done = false;
    proof {
        assert(sp_prepend(cv(chunks@), spec_scan(d@, 2)) == spec_scan(d@, 2)) by {
            if spec_scan(d@, 2) is Ok {
                assert(cv(chunks@) + spec_scan(d@, 2).unwrap() =~= spec_scan(d@, 2).unwrap());
            }
        }
    }
    while !done && i <= dlen - 4
        invariant
            dlen == d@.len(),
            4 <= dlen,
            d@[0] == 0xFF && d@[1] == 0xD8,
            2 <= i <= dlen,
            spec_scan(d@, 2) == sp_prepend(cv(chunks@), spec_scan(d@, i as nat)),
            done ==> spec_scan(d@, i as nat) == Ok::<Seq<(u8, Seq<u8>)>, JpegIccError>(
                Seq::empty(),
            ),
        decreases dlen - i, (if done { 0int } else { 1int }),
    {
        let ghost pre = cv(chunks@);
        if d[i] != 0xFF {
            proof {
                assert(spec_scan(d@, i as nat) == spec_scan(d@, (i + 1) as nat));
            }
            i = i + 1;
        } else {
            let marker = d[i + 1];
            if marker == 0xD9 || marker == 0xDA {
                proof {
                    assert(spec_scan(d@, i as nat) == Ok::<Seq<(u8, Seq<u8>)>, JpegIccError>(
                        Seq::empty(),
                    ));
                }
                done = true;
            } else {
                let seg_len: usize = (d[i + 2] as usize) * 256 + (d[i + 3] as usize);
                let k = i + 4;
                if seg_len < 2 || seg_len - 2 > dlen - k {
                    proof {
                        assert(spec_scan(d@, i as nat) == Err::<Seq<(u8, Seq<u8>)>, JpegIccError>(
                            JpegIccError::MalformedSegment,
                        ));
                        assert(spec_scan(d@, 2) == Err::<Seq<(u8, Seq<u8>)>, JpegIccError>(
                            JpegIccError::MalformedSegment,
                        ));
                    }
                    return Err(JpegIccError::MalformedSegment);
                }
                let seg = copy_range(d, k, seg_len - 2);
                let next = k + (seg_len - 2);
                if marker == 0xE2 && is_icc_carrier(&seg) {
                    let seq_no = seg[12];
                    let payload = copy_range(&seg, 14, seg.len() - 14);
                    proof {
                        assert(seg@.subrange(14, seg@.len() as int) == payload@);
                    }
                    chunks.push(IccChunk { seq_no, data: payload });
                    proof {
                        assert(cv(chunks@) =~= pre + seq![(seq_no, payload@)]);
                        assert(spec_scan(d@, i as nat) == sp_prepend(
                            seq![(seq_no, payload@)],
                            spec_scan(d@, next as nat),
                        ));
                        if spec_scan(d@, next as nat) is Ok {
                            assert(pre + (seq![(seq_no, payload@)] + spec_scan(
                                d@,
                                next as nat,
                            ).unwrap()) =~= cv(chunks@) + spec_scan(d@, next as nat).unwrap());
                        }
                        assert(sp_prepend(pre, spec_scan(d@, i as nat)) == sp_prepend(
                            cv(chunks@),
                            spec_scan(d@, next as nat),
                        ));
                    }
                } else {
                    proof {
                        assert(spec_scan(d@, i as nat) == spec_scan(d@, next as nat));
                    }
                }
                i = next;
            }
        }
    }
    proof {
        if !done {
            assert(spec_scan(d@, i as nat) == Ok::<Seq<(u8, Seq<u8>)>, JpegIccError>(Seq::empty()));
        }
        assert(cv(chunks@) + Seq::<(u8, Seq<u8>)>::empty() =~= cv(chunks@));
    }
    Ok(chunks)
}

/// Concatenates the payloads of sorted chunks in order.
fn concat_chunks(chunks: &Vec<IccChunk>) -> (r: Vec<u8>)
    ensures
        r@ == spec_concat(cv(chunks@)),
{
    let mut out: Vec<u8> = Vec::new();
    let mut i: usize = 0;
    proof {
        assert(cv(chunks@).subrange(0, 0) =~= Seq::empty());
        assert(out@ =~= spec_concat(cv(chunks@).subrange(0, 0)));
    }
    while i < chunks.len()
        invariant
            i <= chunks@.len(),
            out@ == spec_concat(cv(chunks@).subrange(0, i as int)),
        decreases chunks@.len() - i,
    {
        crate::endian::append_bytes(&mut out, &chunks[i].data);
        proof {
            let full = cv(chunks@);
            let sub2 = full.subrange(0, i + 1);
            assert(sub2.drop_last() =~= full.subrange(0, i as int));
            assert(sub2.last() == full[i as int]);
            assert(full[i as int].1 == chunks@[i as int].data@);
        }
        i = i + 1;
    }
    proof {
        assert(cv(chunks@).subrange(0, chunks@.len() as int) =~= cv(chunks@));
    }
    out
}

/// Reads an embedded ICC profile out of a JPEG byte stream: scans the APP2
/// carrier segments, sorts the chunks by sequence number — not by their
/// order in the file — and concatenates them. An empty or absent profile in
/// a well-formed scan is `Ok(None)`, never an error; a malformed segment —
/// a length field below 2, or a body overrunning the data — fails, exactly
/// then.
pub fn jpeg_icc(d: &Vec<u8>) -> (r: Result<Option<Vec<u8>>, JpegIccError>)
    ensures
        match (r, spec_jpeg_icc(d@)) {
            (Ok(Some(v)), Ok(Some(s))) => v@ == s && v@.len() > 0,
            (Ok(None), Ok(None)) => true,
            (Err(e1), Err(e2)) => e1 == e2,
            _ => false,
        },
{
    let chunks = match jpeg_icc_chunks(d) {
        Err(e) => {
            return Err(e);
        },
        Ok(c) => c,
    };
    if chunks.len() == 0 {
        proof {
            assert(cv(chunks@).len() == 0);
        }
        return Ok(None);
    }
    proof {
        assert(cv(chunks@).len() == chunks@.len());
    }
    let sorted = sort_chunks(chunks);
    let out = concat_chunks(&sorted);
    if out.len() == 0 {
        Ok(None)
    } else {
        Ok(Some(out))
    }
}

} // verus!
