//! Wire codec for cached values.
//!
//! A point entry holds one encoded record.  A list entry holds a tagged
//! union: `Data` (an ordered record list) or `Pointers` (an ordered list of
//! 64-bit signed chunk pointers).  A tag the decoder does not recognize
//! surfaces as `UnknownField`, so that buffers written by newer code decode
//! without a crash and are then treated as a decode miss.
//!
//! The encoding is deterministic, so a `Data` buffer split at arbitrary byte
//! boundaries and re-concatenated decodes to the original list.

use vstd::prelude::*;

use crate::record::FilenodeInfo;
use crate::record::FilenodeInfoView;
use crate::record::all_wf;
use crate::record::views_of;

verus! {

/// Wire tag of an inline record list.
pub const TAG_DATA: u8 = 1;
/// Wire tag of a chunk-pointer list.
pub const TAG_POINTERS: u8 = 2;

/// The tagged union stored at a list-root key.
#[derive(Debug, PartialEq, Eq)]
pub enum FilenodeInfoList {
    Data(Vec<FilenodeInfo>),
    Pointers(Vec<i64>),
    UnknownField,
}

/// Mathematical model of the tagged union.
pub enum FilenodeInfoListView {
    Data(Seq<FilenodeInfoView>),
    Pointers(Seq<i64>),
    UnknownField,
}

impl View for FilenodeInfoList {
    type V = FilenodeInfoListView;

    open spec fn view(&self) -> FilenodeInfoListView {
        match self {
            FilenodeInfoList::Data(rs) => FilenodeInfoListView::Data(
                rs@.map_values(|r: FilenodeInfo| r@),
            ),
            FilenodeInfoList::Pointers(ps) => FilenodeInfoListView::Pointers(ps@),
            FilenodeInfoList::UnknownField => FilenodeInfoListView::UnknownField,
        }
    }
}

// ---------------------------------------------------------------------------
// Encoding, as spec functions.
// ---------------------------------------------------------------------------

/// A 64-bit unsigned integer as eight big-endian bytes.
pub open spec fn enc_u64(v: u64) -> Seq<u8> {
    seq![
        (v >> 56) as u8,
        (v >> 48) as u8,
        (v >> 40) as u8,
        (v >> 32) as u8,
        (v >> 24) as u8,
        (v >> 16) as u8,
        (v >> 8) as u8,
        v as u8,
    ]
}

/// A signed chunk pointer as the big-endian bytes of its bit pattern.
pub open spec fn enc_i64(p: i64) -> Seq<u8> {
    enc_u64(p as u64)
}

/// A byte string, length-prefixed.
pub open spec fn enc_bytes(b: Seq<u8>) -> Seq<u8> {
    enc_u64(b.len() as u64) + b
}

/// An optional identifier: presence byte, then the value if present.
pub open spec fn enc_opt_id(o: Option<u64>) -> Seq<u8> {
    match o {
        None => seq![0u8],
        Some(v) => seq![1u8] + enc_u64(v),
    }
}

/// An optional copy origin: presence byte, then source path and identifier.
pub open spec fn enc_copyfrom(o: Option<(Seq<u8>, u64)>) -> Seq<u8> {
    match o {
        None => seq![0u8],
        Some((p, id)) => seq![1u8] + enc_bytes(p) + enc_u64(id),
    }
}

/// One record.
pub open spec fn enc_record(r: FilenodeInfoView) -> Seq<u8> {
    enc_bytes(r.path) + enc_u64(r.filenode) + enc_opt_id(r.p1) + enc_opt_id(r.p2)
        + enc_copyfrom(r.copyfrom) + enc_u64(r.linknode)
}

/// An ordered record sequence, records in order.
pub open spec fn enc_records(rs: Seq<FilenodeInfoView>) -> Seq<u8>
    decreases rs.len(),
{
    if rs.len() == 0 {
        Seq::empty()
    } else {
        enc_record(rs[0]) + enc_records(rs.drop_first())
    }
}

/// An ordered pointer sequence.
pub open spec fn enc_i64s(ps: Seq<i64>) -> Seq<u8>
    decreases ps.len(),
{
    if ps.len() == 0 {
        Seq::empty()
    } else {
        enc_i64(ps[0]) + enc_i64s(ps.drop_first())
    }
}

/// The `Data` variant: tag, count, records.
pub open spec fn enc_data(rs: Seq<FilenodeInfoView>) -> Seq<u8> {
    seq![TAG_DATA] + enc_u64(rs.len() as u64) + enc_records(rs)
}

/// The `Pointers` variant: tag, count, pointers.
pub open spec fn enc_pointers(ps: Seq<i64>) -> Seq<u8> {
    seq![TAG_POINTERS] + enc_u64(ps.len() as u64) + enc_i64s(ps)
}

// ---------------------------------------------------------------------------
// Decoding, as spec functions.  Each decoder takes the not-yet-consumed
// suffix of the buffer and returns the decoded value and the remaining
// suffix, or `None` when the bytes do not parse.
// ---------------------------------------------------------------------------

/// The value of the first eight bytes, big-endian.
pub open spec fn dec_u64_prefix(s: Seq<u8>) -> u64
    recommends
        s.len() >= 8,
{
    ((s[0] as u64) << 56) | ((s[1] as u64) << 48) | ((s[2] as u64) << 40) | ((s[3] as u64) << 32)
        | ((s[4] as u64) << 24) | ((s[5] as u64) << 16) | ((s[6] as u64) << 8) | (s[7] as u64)
}

pub open spec fn dec_u64_s(s: Seq<u8>) -> Option<(u64, Seq<u8>)> {
    if s.len() >= 8 {
        Some((dec_u64_prefix(s), s.skip(8)))
    } else {
        None
    }
}

pub open spec fn dec_i64_s(s: Seq<u8>) -> Option<(i64, Seq<u8>)> {
    match dec_u64_s(s) {
        Some((v, rest)) => Some((v as i64, rest)),
        None => None,
    }
}

pub open spec fn dec_bytes_s(s: Seq<u8>) -> Option<(Seq<u8>, Seq<u8>)> {
    match dec_u64_s(s) {
        Some((n, rest)) => if rest.len() >= n {
            Some((rest.take(n as int), rest.skip(n as int)))
        } else {
            None
        },
        None => None,
    }
}

pub open spec fn dec_opt_id_s(s: Seq<u8>) -> Option<(Option<u64>, Seq<u8>)> {
    if s.len() < 1 {
        None
    } else if s[0] == 0u8 {
        Some((None, s.skip(1)))
    } else if s[0] == 1u8 {
        match dec_u64_s(s.skip(1)) {
            Some((v, rest)) => Some((Some(v), rest)),
            None => None,
        }
    } else {
        None
    }
}

pub open spec fn dec_copyfrom_s(s: Seq<u8>) -> Option<(Option<(Seq<u8>, u64)>, Seq<u8>)> {
    if s.len() < 1 {
        None
    } else if s[0] == 0u8 {
        Some((None, s.skip(1)))
    } else if s[0] == 1u8 {
        match dec_bytes_s(s.skip(1)) {
            Some((p, rest)) => match dec_u64_s(rest) {
                Some((id, rest2)) => Some((Some((p, id)), rest2)),
                None => None,
            },
            None => None,
        }
    } else {
        None
    }
}

pub open spec fn dec_record_s(s: Seq<u8>) -> Option<(FilenodeInfoView, Seq<u8>)> {
    match dec_bytes_s(s) {
        Some((path, s1)) => match dec_u64_s(s1) {
            Some((filenode, s2)) => match dec_opt_id_s(s2) {
                Some((p1, s3)) => match dec_opt_id_s(s3) {
                    Some((p2, s4)) => match dec_copyfrom_s(s4) {
                        Some((copyfrom, s5)) => match dec_u64_s(s5) {
                            Some((linknode, s6)) => Some((
                                FilenodeInfoView { path, filenode, p1, p2, copyfrom, linknode },
                                s6,
                            )),
                            None => None,
                        },
                        None => None,
                    },
                    None => None,
                },
                None => None,
            },
            None => None,
        },
        None => None,
    }
}

pub open spec fn dec_records_s(s: Seq<u8>, n: nat) -> Option<(Seq<FilenodeInfoView>, Seq<u8>)>
    decreases n,
{
    if n == 0 {
        Some((Seq::empty(), s))
    } else {
        match dec_record_s(s) {
            Some((r, rest)) => match dec_records_s(rest, (n - 1) as nat) {
                Some((rs, rest2)) => Some((seq![r] + rs, rest2)),
                None => None,
            },
            None => None,
        }
    }
}

pub open spec fn dec_i64s_s(s: Seq<u8>, n: nat) -> Option<(Seq<i64>, Seq<u8>)>
    decreases n,
{
    if n == 0 {
        Some((Seq::empty(), s))
    } else {
        match dec_i64_s(s) {
            Some((p, rest)) => match dec_i64s_s(rest, (n - 1) as nat) {
                Some((ps, rest2)) => Some((seq![p] + ps, rest2)),
                None => None,
            },
            None => None,
        }
    }
}

/// A whole list buffer.  The buffer must be consumed exactly; an unknown
/// leading tag decodes as `UnknownField`.
pub open spec fn dec_list(s: Seq<u8>) -> Option<FilenodeInfoListView> {
    if s.len() < 1 {
        None
    } else if s[0] == TAG_DATA {
        match dec_u64_s(s.skip(1)) {
            Some((n, rest)) => match dec_records_s(rest, n as nat) {
                Some((rs, rest2)) => if rest2.len() == 0 {
                    Some(FilenodeInfoListView::Data(rs))
                } else {
                    None
                },
                None => None,
            },
            None => None,
        }
    } else if s[0] == TAG_POINTERS {
        match dec_u64_s(s.skip(1)) {
            Some((n, rest)) => match dec_i64s_s(rest, n as nat) {
                Some((ps, rest2)) => if rest2.len() == 0 {
                    Some(FilenodeInfoListView::Pointers(ps))
                } else {
                    None
                },
                None => None,
            },
            None => None,
        }
    } else {
        Some(FilenodeInfoListView::UnknownField)
    }
}

/// A whole point buffer: exactly one record.
pub open spec fn dec_record_full(s: Seq<u8>) -> Option<FilenodeInfoView> {
    match dec_record_s(s) {
        Some((r, rest)) => if rest.len() == 0 {
            Some(r)
        } else {
            None
        },
        None => None,
    }
}

// ---------------------------------------------------------------------------
// Round-trip lemmas: each decoder inverts its encoder on any buffer that
// starts with the encoding, whatever follows it.
// ---------------------------------------------------------------------------

pub proof fn lemma_dec_u64(v: u64, rest: Seq<u8>)
    ensures
        dec_u64_s(enc_u64(v) + rest) == Some((v, rest)),
{
    let s = enc_u64(v) + rest;
    assert(s.len() >= 8);
    let b0 = s[0];
    let b1 = s[1];
    let b2 = s[2];
    let b3 = s[3];
    let b4 = s[4];
    let b5 = s[5];
    let b6 = s[6];
    let b7 = s[7];
    assert(b0 == (v >> 56) as u8);
    assert(b1 == (v >> 48) as u8);
    assert(b2 == (v >> 40) as u8);
    assert(b3 == (v >> 32) as u8);
    assert(b4 == (v >> 24) as u8);
    assert(b5 == (v >> 16) as u8);
    assert(b6 == (v >> 8) as u8);
    assert(b7 == v as u8);
    assert(((b0 as u64) << 56) | ((b1 as u64) << 48) | ((b2 as u64) << 40) | ((b3 as u64) << 32)
        | ((b4 as u64) << 24) | ((b5 as u64) << 16) | ((b6 as u64) << 8) | (b7 as u64) == v)
        by (bit_vector)
        requires
            b0 == (v >> 56) as u8,
            b1 == (v >> 48) as u8,
            b2 == (v >> 40) as u8,
            b3 == (v >> 32) as u8,
            b4 == (v >> 24) as u8,
            b5 == (v >> 16) as u8,
            b6 == (v >> 8) as u8,
            b7 == v as u8,
    ;
    assert(dec_u64_prefix(s) == v);
    assert(s.skip(8) =~= rest);
}

pub proof fn lemma_dec_i64(p: i64, rest: Seq<u8>)
    ensures
        dec_i64_s(enc_i64(p) + rest) == Some((p, rest)),
{
    lemma_dec_u64(p as u64, rest);
    assert(((p as u64) as i64) == p) by (bit_vector);
}

pub proof fn lemma_dec_bytes(b: Seq<u8>, rest: Seq<u8>)
    requires
        b.len() <= u64::MAX,
    ensures
        dec_bytes_s(enc_bytes(b) + rest) == Some((b, rest)),
{
    let n = b.len() as u64;
    assert(enc_bytes(b) + rest =~= enc_u64(n) + (b + rest));
    lemma_dec_u64(n, b + rest);
    assert(n as int == b.len());
    assert((b + rest).take(n as int) =~= b);
    assert((b + rest).skip(n as int) =~= rest);
}

pub proof fn lemma_dec_opt_id(o: Option<u64>, rest: Seq<u8>)
    ensures
        dec_opt_id_s(enc_opt_id(o) + rest) == Some((o, rest)),
{
    match o {
        None => {
            let s = enc_opt_id(o) + rest;
            assert(s[0] == 0u8);
            assert(s.skip(1) =~= rest);
        }
        Some(v) => {
            let s = enc_opt_id(o) + rest;
            assert(s =~= seq![1u8] + (enc_u64(v) + rest));
            assert(s[0] == 1u8);
            assert(s.skip(1) =~= enc_u64(v) + rest);
            lemma_dec_u64(v, rest);
        }
    }
}

pub proof fn lemma_dec_copyfrom(o: Option<(Seq<u8>, u64)>, rest: Seq<u8>)
    requires
        match o {
            None => true,
            Some((p, _)) => p.len() <= u64::MAX,
        },
    ensures
        dec_copyfrom_s(enc_copyfrom(o) + rest) == Some((o, rest)),
{
    match o {
        None => {
            let s = enc_copyfrom(o) + rest;
            assert(s[0] == 0u8);
            assert(s.skip(1) =~= rest);
        }
        Some((p, id)) => {
            let s = enc_copyfrom(o) + rest;
            assert(s =~= seq![1u8] + (enc_bytes(p) + (enc_u64(id) + rest)));
            assert(s[0] == 1u8);
            assert(s.skip(1) =~= enc_bytes(p) + (enc_u64(id) + rest));
            lemma_dec_bytes(p, enc_u64(id) + rest);
            lemma_dec_u64(id, rest);
        }
    }
}

pub proof fn lemma_dec_record(r: FilenodeInfoView, rest: Seq<u8>)
    requires
        r.wf(),
    ensures
        dec_record_s(enc_record(r) + rest) == Some((r, rest)),
{
    let s = enc_record(r) + rest;
    let t5 = enc_u64(r.linknode) + rest;
    let t4 = enc_copyfrom(r.copyfrom) + t5;
    let t3 = enc_opt_id(r.p2) + t4;
    let t2 = enc_opt_id(r.p1) + t3;
    let t1 = enc_u64(r.filenode) + t2;
    assert(s =~= enc_bytes(r.path) + t1);
    lemma_dec_bytes(r.path, t1);
    lemma_dec_u64(r.filenode, t2);
    lemma_dec_opt_id(r.p1, t3);
    lemma_dec_opt_id(r.p2, t4);
    lemma_dec_copyfrom(r.copyfrom, t5);
    lemma_dec_u64(r.linknode, rest);
}

proof fn lemma_add_assoc(a: Seq<u8>, b: Seq<u8>, c: Seq<u8>)
    ensures
        (a + b) + c == a + (b + c),
{
    assert((a + b) + c =~= a + (b + c));
}

#[verifier::rlimit(100)]
#[verifier::spinoff_prover]
proof fn lemma_dec_records_step(rs: Seq<FilenodeInfoView>, rest: Seq<u8>)
    requires
        rs.len() > 0,
        rs[0].wf(),
        dec_records_s(enc_records(rs.drop_first()) + rest, rs.drop_first().len()) == Some(
            (rs.drop_first(), rest),
        ),
    ensures
        dec_records_s(enc_records(rs) + rest, rs.len()) == Some((rs, rest)),
{
    let tail = rs.drop_first();
    let r0 = rs[0];
    let s = enc_records(rs) + rest;
    let inner = enc_records(tail) + rest;
    assert(enc_records(rs) == enc_record(r0) + enc_records(tail));
    lemma_add_assoc(enc_record(r0), enc_records(tail), rest);
    assert(s == enc_record(r0) + inner);
    lemma_dec_record(r0, inner);
    assert(dec_record_s(s) == Some((r0, inner)));
    assert((rs.len() - 1) as nat == tail.len());
    assert(seq![r0] + tail =~= rs);
}

pub proof fn lemma_dec_records(rs: Seq<FilenodeInfoView>, rest: Seq<u8>)
    requires
        all_wf(rs),
    ensures
        dec_records_s(enc_records(rs) + rest, rs.len()) == Some((rs, rest)),
    decreases rs.len(),
{
    if rs.len() == 0 {
        assert(enc_records(rs) + rest =~= rest);
        assert(dec_records_s(rest, 0) == Some((Seq::<FilenodeInfoView>::empty(), rest)));
        assert(rs =~= Seq::<FilenodeInfoView>::empty());
    } else {
        let tail = rs.drop_first();
        assert forall|i: int| 0 <= i < tail.len() implies #[trigger] tail[i].wf() by {
            assert(tail[i] == rs[i + 1]);
            assert(rs[i + 1].wf());
        }
        lemma_dec_records(tail, rest);
        assert(rs[0].wf());
        lemma_dec_records_step(rs, rest);
    }
}

pub proof fn lemma_dec_i64s(ps: Seq<i64>, rest: Seq<u8>)
    ensures
        dec_i64s_s(enc_i64s(ps) + rest, ps.len()) == Some((ps, rest)),
    decreases ps.len(),
{
    if ps.len() == 0 {
        assert(enc_i64s(ps) + rest =~= rest);
        assert(ps =~= Seq::<i64>::empty());
    } else {
        let tail = ps.drop_first();
        let s = enc_i64s(ps) + rest;
        assert(s =~= enc_i64(ps[0]) + (enc_i64s(tail) + rest));
        lemma_dec_i64(ps[0], enc_i64s(tail) + rest);
        lemma_dec_i64s(tail, rest);
        assert(seq![ps[0]] + tail =~= ps);
    }
}

/// Decoding inverts encoding for an inline record list.
pub proof fn lemma_dec_data(rs: Seq<FilenodeInfoView>)
    requires
        all_wf(rs),
        rs.len() <= u64::MAX,
    ensures
        dec_list(enc_data(rs)) == Some(FilenodeInfoListView::Data(rs)),
{
    let n = rs.len() as u64;
    let s = enc_data(rs);
    assert(s[0] == TAG_DATA);
    assert(s.skip(1) =~= enc_u64(n) + (enc_records(rs) + Seq::<u8>::empty()));
    lemma_dec_u64(n, enc_records(rs) + Seq::<u8>::empty());
    assert(n as nat == rs.len());
    lemma_dec_records(rs, Seq::<u8>::empty());
}

/// Decoding inverts encoding for a pointer list.
pub proof fn lemma_dec_pointers(ps: Seq<i64>)
    requires
        ps.len() <= u64::MAX,
    ensures
        dec_list(enc_pointers(ps)) == Some(FilenodeInfoListView::Pointers(ps)),
{
    let n = ps.len() as u64;
    let s = enc_pointers(ps);
    assert(s[0] == TAG_POINTERS);
    assert(TAG_POINTERS != TAG_DATA);
    assert(s.skip(1) =~= enc_u64(n) + (enc_i64s(ps) + Seq::<u8>::empty()));
    lemma_dec_u64(n, enc_i64s(ps) + Seq::<u8>::empty());
    assert(n as nat == ps.len());
    lemma_dec_i64s(ps, Seq::<u8>::empty());
}

/// Decoding inverts encoding for a single point record.
pub proof fn lemma_dec_record_full(r: FilenodeInfoView)
    requires
        r.wf(),
    ensures
        dec_record_full(enc_record(r)) == Some(r),
{
    assert(enc_record(r) =~= enc_record(r) + Seq::<u8>::empty());
    lemma_dec_record(r, Seq::<u8>::empty());
}

// ---------------------------------------------------------------------------
// Executable encoders.
// ---------------------------------------------------------------------------

fn push_u64(out: &mut Vec<u8>, v: u64)
    ensures
        final(out)@ == old(out)@ + enc_u64(v),
{
    out.push((v >> 56) as u8);
    out.push((v >> 48) as u8);
    out.push((v >> 40) as u8);
    out.push((v >> 32) as u8);
    out.push((v >> 24) as u8);
    out.push((v >> 16) as u8);
    out.push((v >> 8) as u8);
    out.push(v as u8);
    assert(out@ =~= old(out)@ + enc_u64(v));
}

pub(crate) fn push_slice(out: &mut Vec<u8>, b: &Vec<u8>)
    ensures
        final(out)@ == old(out)@ + b@,
{
    let ghost out0: Seq<u8> = out@;
    assert(out@ =~= out0 + b@.take(0));
    let mut i: usize = 0;
    while i < b.len()
        invariant
            i <= b@.len(),
            out@ == out0 + b@.take(i as int),
        decreases b@.len() - i,
    {
        out.push(b[i]);
        assert(out@ =~= out0 + b@.take(i as int + 1));
        i = i + 1;
    }
    assert(b@.take(b@.len() as int) =~= b@);
}

fn push_bytes(out: &mut Vec<u8>, b: &Vec<u8>)
    ensures
        final(out)@ == old(out)@ + enc_bytes(b@),
{
    let n: u64 = b.len() as u64;
    assert(n == b@.len() as u64);
    push_u64(out, n);
    push_slice(out, b);
    assert(out@ =~= old(out)@ + enc_bytes(b@));
}

fn push_opt_id(out: &mut Vec<u8>, o: &Option<u64>)
    ensures
        final(out)@ == old(out)@ + enc_opt_id(*o),
{
    match o {
        None => {
            out.push(0u8);
            assert(out@ =~= old(out)@ + enc_opt_id(*o));
        }
        Some(v) => {
            out.push(1u8);
            push_u64(out, *v);
            assert(out@ =~= old(out)@ + enc_opt_id(*o));
        }
    }
}

fn push_copyfrom(out: &mut Vec<u8>, o: &Option<(Vec<u8>, u64)>)
    ensures
        final(out)@ == old(out)@ + enc_copyfrom(match *o {
            None => None,
            Some((p, id)) => Some((p@, id)),
        }),
{
    match o {
        None => {
            out.push(0u8);
        }
        Some((p, id)) => {
            out.push(1u8);
            push_bytes(out, p);
            push_u64(out, *id);
        }
    }
    assert(out@ =~= old(out)@ + enc_copyfrom(match *o {
        None => None,
        Some((p, id)) => Some((p@, id)),
    }));
}

fn push_record(out: &mut Vec<u8>, r: &FilenodeInfo)
    ensures
        final(out)@ == old(out)@ + enc_record(r@),
{
    push_bytes(out, &r.path);
    push_u64(out, r.filenode);
    push_opt_id(out, &r.p1);
    push_opt_id(out, &r.p2);
    push_copyfrom(out, &r.copyfrom);
    push_u64(out, r.linknode);
    assert(out@ =~= old(out)@ + enc_record(r@));
}

/// Encode one record, as stored at a point key.
pub fn serialize_filenode(r: &FilenodeInfo) -> (out: Vec<u8>)
    ensures
        out@ == enc_record(r@),
{
    let mut out: Vec<u8> = Vec::new();
    push_record(&mut out, r);
    assert(out@ =~= enc_record(r@));
    out
}

proof fn lemma_enc_records_app(rs: Seq<FilenodeInfoView>, r: FilenodeInfoView)
    ensures
        enc_records(rs.push(r)) == enc_records(rs) + enc_record(r),
    decreases rs.len(),
{
    if rs.len() == 0 {
        assert(rs.push(r)[0] == r);
        assert(rs.push(r).drop_first() =~= Seq::<FilenodeInfoView>::empty());
        assert(enc_record(r) + enc_records(Seq::<FilenodeInfoView>::empty()) =~= enc_record(r));
        assert(enc_records(rs) + enc_record(r) =~= enc_record(r));
    } else {
        assert(rs.push(r)[0] == rs[0]);
        assert(rs.push(r).drop_first() =~= rs.drop_first().push(r));
        lemma_enc_records_app(rs.drop_first(), r);
        assert(enc_record(rs[0]) + (enc_records(rs.drop_first()) + enc_record(r)) =~= (
        enc_record(rs[0]) + enc_records(rs.drop_first())) + enc_record(r));
    }
}

proof fn lemma_enc_i64s_app(ps: Seq<i64>, p: i64)
    ensures
        enc_i64s(ps.push(p)) == enc_i64s(ps) + enc_i64(p),
    decreases ps.len(),
{
    if ps.len() == 0 {
        assert(ps.push(p)[0] == p);
        assert(ps.push(p).drop_first() =~= Seq::<i64>::empty());
        assert(enc_i64(p) + enc_i64s(Seq::<i64>::empty()) =~= enc_i64(p));
        assert(enc_i64s(ps) + enc_i64(p) =~= enc_i64(p));
    } else {
        assert(ps.push(p)[0] == ps[0]);
        assert(ps.push(p).drop_first() =~= ps.drop_first().push(p));
        lemma_enc_i64s_app(ps.drop_first(), p);
        assert(enc_i64(ps[0]) + (enc_i64s(ps.drop_first()) + enc_i64(p)) =~= (enc_i64(ps[0])
            + enc_i64s(ps.drop_first())) + enc_i64(p));
    }
}

/// Encode an ordered record list as the `Data` variant of the wire union.
pub fn serialize_history(filenodes: &Vec<FilenodeInfo>) -> (out: Vec<u8>)
    ensures
        out@ == enc_data(views_of(filenodes@)),
{
    let ghost vs: Seq<FilenodeInfoView> = views_of(filenodes@);
    let mut out: Vec<u8> = Vec::new();
    out.push(TAG_DATA);
    let n: u64 = filenodes.len() as u64;
    assert(n == vs.len() as u64);
    push_u64(&mut out, n);
    let ghost head: Seq<u8> = out@;
    assert(out@ =~= head + enc_records(vs.take(0)));
    let mut i: usize = 0;
    while i < filenodes.len()
        invariant
            i <= filenodes@.len(),
            vs == views_of(filenodes@),
            out@ == head + enc_records(vs.take(i as int)),
        decreases filenodes@.len() - i,
    {
        push_record(&mut out, &filenodes[i]);
        proof {
            lemma_enc_records_app(vs.take(i as int), vs[i as int]);
            assert(vs.take(i as int + 1) =~= vs.take(i as int).push(vs[i as int]));
            assert(out@ =~= head + enc_records(vs.take(i as int + 1)));
        }
        i = i + 1;
    }
    assert(vs.take(vs.len() as int) =~= vs);
    assert(out@ =~= enc_data(vs));
    out
}

/// Encode an ordered chunk-pointer list as the `Pointers` variant.
pub fn serialize_pointers(pointers: &Vec<i64>) -> (out: Vec<u8>)
    ensures
        out@ == enc_pointers(pointers@),
{
    let mut out: Vec<u8> = Vec::new();
    out.push(TAG_POINTERS);
    let n: u64 = pointers.len() as u64;
    push_u64(&mut out, n);
    let ghost head: Seq<u8> = out@;
    assert(out@ =~= head + enc_i64s(pointers@.take(0)));
    let mut i: usize = 0;
    while i < pointers.len()
        invariant
            i <= pointers@.len(),
            out@ == head + enc_i64s(pointers@.take(i as int)),
        decreases pointers@.len() - i,
    {
        push_u64(&mut out, pointers[i] as u64);
        proof {
            lemma_enc_i64s_app(pointers@.take(i as int), pointers@[i as int]);
            assert(pointers@.take(i as int + 1) =~= pointers@.take(i as int).push(
                pointers@[i as int],
            ));
            assert(out@ =~= head + enc_i64s(pointers@.take(i as int + 1)));
        }
        i = i + 1;
    }
    assert(pointers@.take(pointers@.len() as int) =~= pointers@);
    assert(out@ =~= enc_pointers(pointers@));
    out
}


// ---------------------------------------------------------------------------
// Executable decoders, each proved against the spec decoder.  Positions
// index into the full buffer; the spec decoder sees the suffix from the
// current position.
// ---------------------------------------------------------------------------

fn read_u64(s: &Vec<u8>, pos: usize) -> (r: Option<(u64, usize)>)
    requires
        pos <= s@.len(),
    ensures
        match r {
            Some(vp) => pos <= vp.1 <= s@.len() && dec_u64_s(s@.skip(pos as int)) == Some(
                (vp.0, s@.skip(vp.1 as int)),
            ),
            None => dec_u64_s(s@.skip(pos as int)) == None::<(u64, Seq<u8>)>,
        },
{
    if s.len() - pos >= 8 {
        let v: u64 = ((s[pos] as u64) << 56) | ((s[pos + 1] as u64) << 48) | ((s[pos + 2] as u64)
            << 40) | ((s[pos + 3] as u64) << 32) | ((s[pos + 4] as u64) << 24) | ((s[pos
            + 5] as u64) << 16) | ((s[pos + 6] as u64) << 8) | (s[pos + 7] as u64);
        proof {
            let suf = s@.skip(pos as int);
            assert(suf.len() >= 8);
            assert(suf[0] == s@[pos as int]);
            assert(suf[1] == s@[pos as int + 1]);
            assert(suf[2] == s@[pos as int + 2]);
            assert(suf[3] == s@[pos as int + 3]);
            assert(suf[4] == s@[pos as int + 4]);
            assert(suf[5] == s@[pos as int + 5]);
            assert(suf[6] == s@[pos as int + 6]);
            assert(suf[7] == s@[pos as int + 7]);
            assert(dec_u64_prefix(suf) == v);
            assert(suf.skip(8) =~= s@.skip(pos as int + 8));
        }
        Some((v, pos + 8))
    } else {
        None
    }
}

#[verifier::loop_isolation(false)]
fn read_bytes(s: &Vec<u8>, pos: usize) -> (r: Option<(Vec<u8>, usize)>)
    requires
        pos <= s@.len(),
    ensures
        match r {
            Some(vp) => pos <= vp.1 <= s@.len() && dec_bytes_s(s@.skip(pos as int)) == Some(
                (vp.0@, s@.skip(vp.1 as int)),
            ),
            None => dec_bytes_s(s@.skip(pos as int)) == None::<(Seq<u8>, Seq<u8>)>,
        },
{
    match read_u64(s, pos) {
        None => None,
        Some((n, p1)) => {
            if n <= (s.len() - p1) as u64 {
                let m: usize = n as usize;
                let mut out: Vec<u8> = Vec::new();
                let mut i: usize = 0;
                while i < m
                    invariant
                        i <= m,
                        p1 + m <= s@.len(),
                        out@ == s@.subrange(p1 as int, p1 as int + i as int),
                    decreases m - i,
                {
                    out.push(s[p1 + i]);
                    assert(out@ =~= s@.subrange(p1 as int, p1 as int + i as int + 1));
                    i = i + 1;
                }
                proof {
                    let rest = s@.skip(p1 as int);
                    assert(rest.len() >= n);
                    assert(out@ =~= rest.take(n as int));
                    assert(rest.skip(n as int) =~= s@.skip(p1 as int + m as int));
                }
                Some((out, p1 + m))
            } else {
                proof {
                    let rest = s@.skip(p1 as int);
                    assert(rest.len() < n);
                }
                None
            }
        }
    }
}

fn read_opt_id(s: &Vec<u8>, pos: usize) -> (r: Option<(Option<u64>, usize)>)
    requires
        pos <= s@.len(),
    ensures
        match r {
            Some(vp) => pos <= vp.1 <= s@.len() && dec_opt_id_s(s@.skip(pos as int)) == Some(
                (vp.0, s@.skip(vp.1 as int)),
            ),
            None => dec_opt_id_s(s@.skip(pos as int)) == None::<(Option<u64>, Seq<u8>)>,
        },
{
    if pos < s.len() {
        let tag: u8 = s[pos];
        assert(s@.skip(pos as int)[0] == s@[pos as int]);
        if tag == 0u8 {
            assert(s@.skip(pos as int).skip(1) =~= s@.skip(pos as int + 1));
            Some((None, pos + 1))
        } else if tag == 1u8 {
            assert(s@.skip(pos as int).skip(1) =~= s@.skip(pos as int + 1));
            match read_u64(s, pos + 1) {
                Some((v, p2)) => Some((Some(v), p2)),
                None => None,
            }
        } else {
            None
        }
    } else {
        None
    }
}

fn read_copyfrom(s: &Vec<u8>, pos: usize) -> (r: Option<(Option<(Vec<u8>, u64)>, usize)>)
    requires
        pos <= s@.len(),
    ensures
        match r {
            Some(vp) => pos <= vp.1 <= s@.len() && dec_copyfrom_s(s@.skip(pos as int)) == Some(
                (
                    match vp.0 {
                        None => None,
                        Some((p, id)) => Some((p@, id)),
                    },
                    s@.skip(vp.1 as int),
                ),
            ),
            None => dec_copyfrom_s(s@.skip(pos as int)) == None::<
                (Option<(Seq<u8>, u64)>, Seq<u8>),
            >,
        },
{
    if pos < s.len() {
        let tag: u8 = s[pos];
        assert(s@.skip(pos as int)[0] == s@[pos as int]);
        if tag == 0u8 {
            assert(s@.skip(pos as int).skip(1) =~= s@.skip(pos as int + 1));
            Some((None, pos + 1))
        } else if tag == 1u8 {
            assert(s@.skip(pos as int).skip(1) =~= s@.skip(pos as int + 1));
            match read_bytes(s, pos + 1) {
                Some((p, p2)) => match read_u64(s, p2) {
                    Some((id, p3)) => Some((Some((p, id)), p3)),
                    None => None,
                },
                None => None,
            }
        } else {
            None
        }
    } else {
        None
    }
}

fn read_record(s: &Vec<u8>, pos: usize) -> (r: Option<(FilenodeInfo, usize)>)
    requires
        pos <= s@.len(),
    ensures
        match r {
            Some(vp) => pos <= vp.1 <= s@.len() && dec_record_s(s@.skip(pos as int)) == Some(
                (vp.0@, s@.skip(vp.1 as int)),
            ),
            None => dec_record_s(s@.skip(pos as int)) == None::<(FilenodeInfoView, Seq<u8>)>,
        },
{
    match read_bytes(s, pos) {
        None => None,
        Some((path, p1)) => match read_u64(s, p1) {
            None => None,
            Some((filenode, p2)) => match read_opt_id(s, p2) {
                None => None,
                Some((p1_id, p3)) => match read_opt_id(s, p3) {
                    None => None,
                    Some((p2_id, p4)) => match read_copyfrom(s, p4) {
                        None => None,
                        Some((copyfrom, p5)) => match read_u64(s, p5) {
                            None => None,
                            Some((linknode, p6)) => {
                                let f = FilenodeInfo {
                                    path,
                                    filenode,
                                    p1: p1_id,
                                    p2: p2_id,
                                    copyfrom,
                                    linknode,
                                };
                                Some((f, p6))
                            }
                        },
                    },
                },
            },
        },
    }
}

/// Decode a whole point buffer into one record; any malformed or
/// incompletely consumed buffer yields `None`.
pub fn deserialize_filenode(s: &Vec<u8>) -> (r: Option<FilenodeInfo>)
    ensures
        match r {
            Some(f) => dec_record_full(s@) == Some(f@),
            None => dec_record_full(s@) == None::<FilenodeInfoView>,
        },
{
    assert(s@.skip(0) =~= s@);
    match read_record(s, 0) {
        None => None,
        Some((f, pos)) => {
            if pos == s.len() {
                Some(f)
            } else {
                None
            }
        }
    }
}

spec fn prepend_rec_res(
    pre: Seq<FilenodeInfoView>,
    o: Option<(Seq<FilenodeInfoView>, Seq<u8>)>,
) -> Option<(Seq<FilenodeInfoView>, Seq<u8>)> {
    match o {
        Some((rs, rest)) => Some((pre + rs, rest)),
        None => None,
    }
}

spec fn prepend_ptr_res(pre: Seq<i64>, o: Option<(Seq<i64>, Seq<u8>)>) -> Option<
    (Seq<i64>, Seq<u8>),
> {
    match o {
        Some((ps, rest)) => Some((pre + ps, rest)),
        None => None,
    }
}

/// Decode a whole list buffer into the wire union; any malformed or
/// incompletely consumed buffer yields `None`.
#[verifier::loop_isolation(false)]
#[verifier::rlimit(100)]
fn read_records(s: &Vec<u8>, start: usize, n: u64) -> (r: Option<(Vec<FilenodeInfo>, usize)>)
    requires
        start <= s@.len(),
    ensures
        match r {
            Some(vp) => start <= vp.1 <= s@.len() && dec_records_s(
                s@.skip(start as int),
                n as nat,
            ) == Some((views_of(vp.0@), s@.skip(vp.1 as int))),
            None => dec_records_s(s@.skip(start as int), n as nat) == None::<
                (Seq<FilenodeInfoView>, Seq<u8>),
            >,
        },
{
    let ghost s0 = s@.skip(start as int);
    let mut acc: Vec<FilenodeInfo> = Vec::new();
    let mut pos: usize = start;
    let mut k: u64 = 0;
    proof {
        assert(views_of(acc@) =~= Seq::<FilenodeInfoView>::empty());
        assert(prepend_rec_res(views_of(acc@), dec_records_s(s0, n as nat)) == dec_records_s(
            s0,
            n as nat,
        )) by {
            match dec_records_s(s0, n as nat) {
                Some((rs, rest)) => {
                    assert(Seq::<FilenodeInfoView>::empty() + rs =~= rs);
                }
                None => {}
            }
        }
    }
    while k < n
        invariant
            start <= pos <= s@.len(),
            k <= n,
            dec_records_s(s0, n as nat) == prepend_rec_res(
                views_of(acc@),
                dec_records_s(s@.skip(pos as int), (n - k) as nat),
            ),
        decreases n - k,
    {
        match read_record(s, pos) {
            None => {
                proof {
                    assert(dec_records_s(s@.skip(pos as int), (n - k) as nat) == None::<
                        (Seq<FilenodeInfoView>, Seq<u8>),
                    >);
                }
                return None;
            }
            Some((f, pos2)) => {
                proof {
                    let suf = s@.skip(pos as int);
                    let suf2 = s@.skip(pos2 as int);
                    let m = (n - k) as nat;
                    assert(dec_record_s(suf) == Some((f@, suf2)));
                    assert(dec_records_s(suf, m) == prepend_rec_res(
                        seq![f@],
                        dec_records_s(suf2, (m - 1) as nat),
                    )) by {
                        match dec_records_s(suf2, (m - 1) as nat) {
                            Some((rs, rest)) => {}
                            None => {}
                        }
                    }
                    assert(views_of(acc@.push(f)) =~= views_of(acc@) + seq![f@]);
                    match dec_records_s(suf2, (m - 1) as nat) {
                        Some((rs, rest)) => {
                            assert(views_of(acc@) + (seq![f@] + rs) =~= (views_of(acc@)
                                + seq![f@]) + rs);
                        }
                        None => {}
                    }
                }
                acc.push(f);
                pos = pos2;
                k = k + 1;
            }
        }
    }
    proof {
        assert(dec_records_s(s@.skip(pos as int), 0) == Some(
            (Seq::<FilenodeInfoView>::empty(), s@.skip(pos as int)),
        ));
        assert(views_of(acc@) + Seq::<FilenodeInfoView>::empty() =~= views_of(acc@));
    }
    Some((acc, pos))
}

#[verifier::loop_isolation(false)]
fn read_i64s(s: &Vec<u8>, start: usize, n: u64) -> (r: Option<(Vec<i64>, usize)>)
    requires
        start <= s@.len(),
    ensures
        match r {
            Some(vp) => start <= vp.1 <= s@.len() && dec_i64s_s(s@.skip(start as int), n as nat)
                == Some((vp.0@, s@.skip(vp.1 as int))),
            None => dec_i64s_s(s@.skip(start as int), n as nat) == None::<(Seq<i64>, Seq<u8>)>,
        },
{
    let ghost s0 = s@.skip(start as int);
    let mut acc: Vec<i64> = Vec::new();
    let mut pos: usize = start;
    let mut k: u64 = 0;
    proof {
        assert(prepend_ptr_res(acc@, dec_i64s_s(s0, n as nat)) == dec_i64s_s(s0, n as nat)) by {
            match dec_i64s_s(s0, n as nat) {
                Some((ps, rest)) => {
                    assert(acc@ + ps =~= ps);
                }
                None => {}
            }
        }
    }
    while k < n
        invariant
            start <= pos <= s@.len(),
            k <= n,
            dec_i64s_s(s0, n as nat) == prepend_ptr_res(
                acc@,
                dec_i64s_s(s@.skip(pos as int), (n - k) as nat),
            ),
        decreases n - k,
    {
        match read_u64(s, pos) {
            None => {
                return None;
            }
            Some((v, pos2)) => {
                let p: i64 = #[verifier::truncate] (v as i64);
                proof {
                    let suf = s@.skip(pos as int);
                    let suf2 = s@.skip(pos2 as int);
                    let m = (n - k) as nat;
                    assert(dec_i64_s(suf) == Some((p, suf2)));
                    assert(dec_i64s_s(suf, m) == prepend_ptr_res(
                        seq![p],
                        dec_i64s_s(suf2, (m - 1) as nat),
                    ));
                    match dec_i64s_s(suf2, (m - 1) as nat) {
                        Some((ps, rest)) => {
                            assert(acc@ + (seq![p] + ps) =~= (acc@ + seq![p]) + ps);
                            assert(acc@.push(p) =~= acc@ + seq![p]);
                        }
                        None => {
                            assert(acc@.push(p) =~= acc@ + seq![p]);
                        }
                    }
                }
                acc.push(p);
                pos = pos2;
                k = k + 1;
            }
        }
    }
    proof {
        assert(acc@ + Seq::<i64>::empty() =~= acc@);
    }
    Some((acc, pos))
}

/// Decode a whole list buffer into the wire union; any malformed or
/// incompletely consumed buffer yields `None`.
pub fn deserialize_list(s: &Vec<u8>) -> (r: Option<FilenodeInfoList>)
    ensures
        match r {
            Some(l) => dec_list(s@) == Some(l@),
            None => dec_list(s@) == None::<FilenodeInfoListView>,
        },
{
    if s.len() < 1 {
        return None;
    }
    let tag: u8 = s[0];
    if tag == TAG_DATA {
        match read_u64(s, 1) {
            None => None,
            Some((n, start)) => match read_records(s, start, n) {
                None => None,
                Some((acc, pos)) => {
                    if pos == s.len() {
                        proof {
                            assert(s@.skip(pos as int).len() == 0);
                        }
                        Some(FilenodeInfoList::Data(acc))
                    } else {
                        proof {
                            assert(s@.skip(pos as int).len() != 0);
                        }
                        None
                    }
                }
            },
        }
    } else if tag == TAG_POINTERS {
        match read_u64(s, 1) {
            None => None,
            Some((n, start)) => match read_i64s(s, start, n) {
                None => None,
                Some((acc, pos)) => {
                    if pos == s.len() {
                        proof {
                            assert(s@.skip(pos as int).len() == 0);
                        }
                        Some(FilenodeInfoList::Pointers(acc))
                    } else {
                        proof {
                            assert(s@.skip(pos as int).len() != 0);
                        }
                        None
                    }
                }
            },
        }
    } else {
        Some(FilenodeInfoList::UnknownField)
    }
}


// ---------------------------------------------------------------------------
// Raw byte chunking of an already serialized buffer.  Chunk boundaries do
// not align with record boundaries; only the concatenation is a wire value.
// ---------------------------------------------------------------------------

/// The byte views of a vector of chunks.
pub open spec fn seqs_of(cs: Seq<Vec<u8>>) -> Seq<Seq<u8>> {
    cs.map_values(|c: Vec<u8>| c@)
}

/// The concatenation of a sequence of byte sequences, in order.
pub open spec fn concat_of(cs: Seq<Seq<u8>>) -> Seq<u8>
    decreases cs.len(),
{
    if cs.len() == 0 {
        Seq::empty()
    } else {
        cs[0] + concat_of(cs.drop_first())
    }
}

pub proof fn lemma_concat_app(cs: Seq<Seq<u8>>, c: Seq<u8>)
    ensures
        concat_of(cs.push(c)) == concat_of(cs) + c,
    decreases cs.len(),
{
    if cs.len() == 0 {
        assert(cs.push(c)[0] == c);
        assert(cs.push(c).drop_first() =~= Seq::<Seq<u8>>::empty());
        assert(c + concat_of(Seq::<Seq<u8>>::empty()) =~= c);
        assert(concat_of(cs) + c =~= c);
    } else {
        assert(cs.push(c)[0] == cs[0]);
        assert(cs.push(c).drop_first() =~= cs.drop_first().push(c));
        lemma_concat_app(cs.drop_first(), c);
        assert(cs[0] + (concat_of(cs.drop_first()) + c) =~= (cs[0] + concat_of(cs.drop_first()))
            + c);
    }
}

/// Split a buffer into consecutive chunks: every chunk but the last is
/// exactly the per-value size limit, the last is non-empty and at most the
/// limit, their concatenation is the buffer, and a buffer over the limit
/// yields at least two chunks.
#[verifier::loop_isolation(false)]
pub fn chunk_split(buf: &Vec<u8>) -> (chunks: Vec<Vec<u8>>)
    requires
        buf@.len() > 0,
    ensures
        concat_of(seqs_of(chunks@)) == buf@,
        forall|i: int| 0 <= i < chunks@.len() ==> 0 < #[trigger] seqs_of(chunks@)[i].len()
            <= crate::MEMCACHE_VALUE_MAX_SIZE,
        forall|i: int| 0 <= i < chunks@.len() - 1 ==> #[trigger] seqs_of(chunks@)[i].len()
            == crate::MEMCACHE_VALUE_MAX_SIZE,
        chunks@.len() >= 1,
        buf@.len() > crate::MEMCACHE_VALUE_MAX_SIZE ==> chunks@.len() >= 2,
{
    let mut chunks: Vec<Vec<u8>> = Vec::new();
    let mut off: usize = 0;
    proof {
        assert(seqs_of(chunks@) =~= Seq::<Seq<u8>>::empty());
        assert(concat_of(seqs_of(chunks@)) =~= buf@.take(0));
    }
    while off < buf.len()
        invariant
            off <= buf@.len(),
            concat_of(seqs_of(chunks@)) == buf@.take(off as int),
            forall|i: int| 0 <= i < chunks@.len() ==> 0 < #[trigger] seqs_of(chunks@)[i].len()
                <= crate::MEMCACHE_VALUE_MAX_SIZE,
            forall|i: int| 0 <= i < chunks@.len() - 1 ==> #[trigger] seqs_of(chunks@)[i].len()
                == crate::MEMCACHE_VALUE_MAX_SIZE,
            chunks@.len() > 0 ==> (seqs_of(chunks@).last().len() == crate::MEMCACHE_VALUE_MAX_SIZE
                || off == buf@.len()),
            off > 0 ==> chunks@.len() >= 1,
            off > crate::MEMCACHE_VALUE_MAX_SIZE ==> chunks@.len() >= 2,
        decreases buf@.len() - off,
    {
        let take_n: usize = if buf.len() - off >= crate::MEMCACHE_VALUE_MAX_SIZE {
            crate::MEMCACHE_VALUE_MAX_SIZE
        } else {
            buf.len() - off
        };
        let mut chunk: Vec<u8> = Vec::new();
        let mut i: usize = 0;
        while i < take_n
            invariant
                off + take_n <= buf@.len(),
                i <= take_n,
                chunk@ == buf@.subrange(off as int, off as int + i as int),
            decreases take_n - i,
        {
            chunk.push(buf[off + i]);
            assert(chunk@ =~= buf@.subrange(off as int, off as int + i as int + 1));
            i = i + 1;
        }
        proof {
            let ghost prev = seqs_of(chunks@);
            lemma_concat_app(prev, chunk@);
            assert(seqs_of(chunks@.push(chunk)) =~= prev.push(chunk@));
            assert(buf@.take(off as int) + buf@.subrange(off as int, off as int + take_n as int)
                =~= buf@.take(off as int + take_n as int));
        }
        chunks.push(chunk);
        off = off + take_n;
    }
    assert(buf@.take(buf@.len() as int) =~= buf@);
    chunks
}

} // verus!
