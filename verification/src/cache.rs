//! The remote cache facade and the chunking protocol.
//!
//! Reads collapse every failure — transport error, miss, undecodable or
//! unknown payload, missing chunk — to "no cached value".  A list whose
//! encoding stays below the per-value limit is stored inline at its root
//! key; a larger list is split into raw byte chunks stored under freshly
//! drawn pointer keys, all of which must land before the root is written,
//! so a failed fill leaves the previous root untouched.

use vstd::prelude::*;

use crate::MEMCACHE_VALUE_MAX_SIZE;
use crate::codec::FilenodeInfoList;
use crate::codec::FilenodeInfoListView;
use crate::codec::concat_of;
use crate::codec::dec_list;
use crate::codec::dec_record_full;
use crate::codec::deserialize_filenode;
use crate::codec::deserialize_list;
use crate::codec::enc_data;
use crate::codec::enc_pointers;
use crate::codec::enc_record;
use crate::codec::lemma_dec_data;
use crate::codec::lemma_dec_pointers;
use crate::codec::lemma_dec_record_full;
use crate::codec::serialize_filenode;
use crate::codec::serialize_history;
use crate::codec::serialize_pointers;
use crate::keys::CacheKeyView;
use crate::keys::KeyGen;
use crate::keys::KeyGenView;
use crate::keys::PathHash;
use crate::keys::chunk_family;
use crate::keys::chunk_key;
use crate::keys::clone_bytes;
use crate::keys::digest_of;
use crate::keys::get_mc_key_for_filenodes_list;
use crate::keys::get_mc_key_for_filenodes_list_chunk;
use crate::keys::get_mc_key_for_single_filenode;
use crate::keys::list_family;
use crate::keys::point_key;
use crate::keys::root_key;
use crate::pointers::PointersIter;
use crate::record::FilenodeInfo;
use crate::record::FilenodeInfoView;
use crate::record::all_wf;
use crate::record::views_of;
use crate::store::Store;
use crate::store::StoreView;
use crate::ttl::chunk_ttl;
use crate::ttl::root_ttl_from_draw;

verus! {

/// Fixed code version baked into every key.
pub const MC_CODEVER: u32 = 3;

/// Fixed site version baked into every key, unless overridden.
pub const MC_SITEVER: u32 = 0;

// ---------------------------------------------------------------------------
// What a read of the store means, as spec functions over the store model.
// ---------------------------------------------------------------------------

pub open spec fn opt_record_view(r: Option<FilenodeInfo>) -> Option<FilenodeInfoView> {
    match r {
        Some(f) => Some(f@),
        None => None,
    }
}

pub open spec fn opt_history_view(r: Option<Vec<FilenodeInfo>>) -> Option<Seq<FilenodeInfoView>> {
    match r {
        Some(v) => Some(views_of(v@)),
        None => None,
    }
}

/// The metrics taxonomy of a point read: exactly one counter event per
/// read, for the embedding application's sink.
#[derive(Clone, Copy, Debug, PartialEq, Eq)]
pub enum PointReadEvent {
    Hit,
    Miss,
    InternalErr,
    DeserializeErr,
}

/// The metrics taxonomy of a list read.  A chunked hit also stands for the
/// pointer-path counter; a missing or failing chunk, or a reconstruction
/// that is not an inline list, is a pointer error.
#[derive(Clone, Copy, Debug, PartialEq, Eq)]
pub enum ListReadEvent {
    HitData,
    HitChunked,
    Miss,
    InternalErr,
    DeserializeErr,
    PointersErr,
}

/// The event a point read of key `k` counts.
pub open spec fn classify_point_read(s: StoreView, k: CacheKeyView) -> PointReadEvent {
    if s.fails.contains(k) {
        PointReadEvent::InternalErr
    } else if !s.m.contains_key(k) {
        PointReadEvent::Miss
    } else {
        match dec_record_full(s.m[k]) {
            Some(f) => PointReadEvent::Hit,
            None => PointReadEvent::DeserializeErr,
        }
    }
}

/// The event a list read counts.
pub open spec fn classify_list_read(
    s: StoreView,
    gen: KeyGenView,
    repo_id: i32,
    digest: Seq<u8>,
) -> ListReadEvent {
    let rk = root_key(gen, repo_id, digest);
    if s.fails.contains(rk) {
        ListReadEvent::InternalErr
    } else if !s.m.contains_key(rk) {
        ListReadEvent::Miss
    } else {
        match dec_list(s.m[rk]) {
            Some(FilenodeInfoListView::Data(rs)) => ListReadEvent::HitData,
            Some(FilenodeInfoListView::Pointers(ps)) => if chunks_ok(s, gen, repo_id, digest, ps) {
                match dec_list(chunk_blob(s, gen, repo_id, digest, ps)) {
                    Some(FilenodeInfoListView::Data(rs)) => ListReadEvent::HitChunked,
                    _ => ListReadEvent::PointersErr,
                }
            } else {
                ListReadEvent::PointersErr
            },
            _ => ListReadEvent::DeserializeErr,
        }
    }
}

/// The record a point read of key `k` yields: absent on transport failure,
/// miss, or an undecodable payload.
pub open spec fn resolve_point(s: StoreView, k: CacheKeyView) -> Option<FilenodeInfoView> {
    if s.fails.contains(k) || !s.m.contains_key(k) {
        None
    } else {
        dec_record_full(s.m[k])
    }
}

/// Every chunk key of the pointer list is present and not failing.
pub open spec fn chunks_ok(
    s: StoreView,
    gen: KeyGenView,
    repo_id: i32,
    digest: Seq<u8>,
    ps: Seq<i64>,
) -> bool {
    forall|j: int| 0 <= j < ps.len() ==> !s.fails.contains(
        #[trigger] chunk_key(gen, repo_id, digest, ps[j]),
    ) && s.m.contains_key(chunk_key(gen, repo_id, digest, ps[j]))
}

/// The chunk payloads of the pointer list, concatenated in pointer order.
pub open spec fn chunk_blob(
    s: StoreView,
    gen: KeyGenView,
    repo_id: i32,
    digest: Seq<u8>,
    ps: Seq<i64>,
) -> Seq<u8>
    decreases ps.len(),
{
    if ps.len() == 0 {
        Seq::empty()
    } else {
        s.m[chunk_key(gen, repo_id, digest, ps[0])] + chunk_blob(
            s,
            gen,
            repo_id,
            digest,
            ps.drop_first(),
        )
    }
}

/// The list a history read yields: the inline list at the root key, or the
/// decoded concatenation of all chunks of a pointer root; absent on any
/// failure, unknown tag, missing chunk, or non-list reconstruction.
pub open spec fn resolve_history(
    s: StoreView,
    gen: KeyGenView,
    repo_id: i32,
    digest: Seq<u8>,
) -> Option<Seq<FilenodeInfoView>> {
    let rk = root_key(gen, repo_id, digest);
    if s.fails.contains(rk) || !s.m.contains_key(rk) {
        None
    } else {
        match dec_list(s.m[rk]) {
            Some(FilenodeInfoListView::Data(rs)) => Some(rs),
            Some(FilenodeInfoListView::Pointers(ps)) => if chunks_ok(s, gen, repo_id, digest, ps) {
                match dec_list(chunk_blob(s, gen, repo_id, digest, ps)) {
                    Some(FilenodeInfoListView::Data(rs)) => Some(rs),
                    _ => None,
                }
            } else {
                None
            },
            _ => None,
        }
    }
}

/// Key `k` has the same binding, and the same recorded time-to-live, in
/// both stores.
pub open spec fn untouched(s0: StoreView, s1: StoreView, k: CacheKeyView) -> bool {
    &&& s1.m.contains_key(k) == s0.m.contains_key(k)
    &&& (s0.m.contains_key(k) ==> s1.m[k] == s0.m[k])
    &&& s1.ttl.contains_key(k) == s0.ttl.contains_key(k)
    &&& (s0.ttl.contains_key(k) ==> s1.ttl[k] == s0.ttl[k])
}

/// What a point fill does to the store: nothing on an oversized record or a
/// failing key, otherwise exactly one insert at the point key, stored with
/// the transport's default time-to-live.
pub open spec fn point_fill_post(
    s0: StoreView,
    s1: StoreView,
    pk: CacheKeyView,
    f: FilenodeInfoView,
) -> bool {
    &&& s1.fails == s0.fails
    &&& forall|k: CacheKeyView| k != pk ==> #[trigger] untouched(s0, s1, k)
    &&& if enc_record(f).len() < MEMCACHE_VALUE_MAX_SIZE && !s0.fails.contains(pk) {
        s1.m == s0.m.insert(pk, enc_record(f)) && s1.ttl == s0.ttl.insert(
            pk,
            crate::store::TRANSPORT_DEFAULT_TTL_SEC,
        )
    } else {
        s1.m == s0.m && s1.ttl == s0.ttl
    }
}

/// What the store holds after a successful chunked fill of `rs` under the
/// pointer list `ps`: the root holds the encoded pointers with a jittered
/// root time-to-live; the chunks of `ps`, in order, are the consecutive
/// byte slices of the encoding — every one but the last exactly the
/// per-value limit — each stored with the fixed maximal chunk time-to-live,
/// so every chunk of this fill outlives its root.
pub open spec fn chunked_root_stored(
    s1: StoreView,
    gen: KeyGenView,
    repo_id: i32,
    digest: Seq<u8>,
    rs: Seq<FilenodeInfoView>,
    ps: Seq<i64>,
) -> bool {
    let rk = root_key(gen, repo_id, digest);
    &&& ps.no_duplicates()
    &&& ps.len() >= 1
    &&& (enc_data(rs).len() > MEMCACHE_VALUE_MAX_SIZE ==> ps.len() >= 2)
    &&& s1.m.contains_key(rk)
    &&& s1.m[rk] == enc_pointers(ps)
    &&& s1.ttl.contains_key(rk)
    &&& crate::ttl::TTL_SEC <= s1.ttl[rk] < crate::ttl::TTL_SEC + crate::ttl::TTL_SEC_RAND
    &&& chunks_ok(s1, gen, repo_id, digest, ps)
    &&& chunk_blob(s1, gen, repo_id, digest, ps) == enc_data(rs)
    &&& forall|j: int| 0 <= j < ps.len() ==> {
        let ck = #[trigger] chunk_key(gen, repo_id, digest, ps[j]);
        0 < s1.m[ck].len() <= MEMCACHE_VALUE_MAX_SIZE && (j < ps.len() - 1 ==> s1.m[ck].len()
            == MEMCACHE_VALUE_MAX_SIZE) && s1.ttl.contains_key(ck) && s1.ttl[ck]
            == crate::ttl::TTL_SEC + crate::ttl::TTL_SEC_RAND
    }
}

/// What a list fill does to the store.  Keys outside this root's family are
/// never touched.  A small encoding is one write: the root holds exactly
/// the encoded list with a jittered time-to-live, and succeeds if and only
/// if the root key is not failing (on failure nothing at all changes).  A
/// large encoding stores chunks first and the pointer root last; on success
/// the root resolves to exactly the filled list and `chunked_root_stored`
/// describes everything written; on failure the root is left as it was
/// (chunks already written may remain until they expire).
pub open spec fn list_fill_post(
    s0: StoreView,
    s1: StoreView,
    gen: KeyGenView,
    repo_id: i32,
    digest: Seq<u8>,
    rs: Seq<FilenodeInfoView>,
    ok: bool,
) -> bool {
    let rk = root_key(gen, repo_id, digest);
    &&& s1.fails == s0.fails
    &&& forall|k: CacheKeyView| !list_family(k, gen, repo_id, digest) ==> #[trigger] untouched(
        s0,
        s1,
        k,
    )
    &&& (enc_data(rs).len() < MEMCACHE_VALUE_MAX_SIZE ==> (ok <==> !s0.fails.contains(rk)))
    &&& (enc_data(rs).len() < MEMCACHE_VALUE_MAX_SIZE && ok ==> exists|t: u64|
        crate::ttl::TTL_SEC <= t < crate::ttl::TTL_SEC + crate::ttl::TTL_SEC_RAND && s1.m
            == s0.m.insert(rk, enc_data(rs)) && s1.ttl == s0.ttl.insert(rk, t))
    &&& (enc_data(rs).len() < MEMCACHE_VALUE_MAX_SIZE && !ok ==> s1 == s0)
    &&& (ok ==> resolve_history(s1, gen, repo_id, digest) == Some(rs))
    &&& (ok && enc_data(rs).len() >= MEMCACHE_VALUE_MAX_SIZE ==> exists|ps: Seq<i64>|
        chunked_root_stored(s1, gen, repo_id, digest, rs, ps))
    &&& (!ok ==> untouched(s0, s1, rk))
}

/// A read event is a hit exactly when the read yields a value: the
/// taxonomy collapses every failure mode, and only failure modes, to a
/// soft miss.
pub proof fn lemma_point_event_hit(s: StoreView, k: CacheKeyView)
    ensures
        (classify_point_read(s, k) is Hit) <==> (resolve_point(s, k) is Some),
{
}

/// A list read event is a hit (inline or chunked) exactly when the read
/// yields a list.
pub proof fn lemma_list_event_hit(s: StoreView, gen: KeyGenView, repo_id: i32, digest: Seq<u8>)
    ensures
        ((classify_list_read(s, gen, repo_id, digest) is HitData) || (classify_list_read(
            s,
            gen,
            repo_id,
            digest,
        ) is HitChunked)) <==> (resolve_history(s, gen, repo_id, digest) is Some),
{
}

/// Within one successful chunked fill, every chunk the fill wrote carries a
/// recorded time-to-live at least the root's, for every jitter draw.
pub proof fn lemma_fill_ttl_ordering(
    s1: StoreView,
    gen: KeyGenView,
    repo_id: i32,
    digest: Seq<u8>,
    rs: Seq<FilenodeInfoView>,
    ps: Seq<i64>,
    j: int,
)
    requires
        chunked_root_stored(s1, gen, repo_id, digest, rs, ps),
        0 <= j < ps.len(),
    ensures
        s1.ttl[chunk_key(gen, repo_id, digest, ps[j])] >= s1.ttl[root_key(gen, repo_id, digest)],
{
    assert(s1.ttl[chunk_key(gen, repo_id, digest, ps[j])] == crate::ttl::TTL_SEC
        + crate::ttl::TTL_SEC_RAND);
}

// ---------------------------------------------------------------------------
// Round-trip and isolation laws.
// ---------------------------------------------------------------------------

/// Every record held in a vector is well formed on the wire.
pub proof fn lemma_views_wf(v: Seq<FilenodeInfo>)
    ensures
        all_wf(views_of(v)),
        views_of(v).len() == v.len(),
{
    assert forall|i: int| 0 <= i < views_of(v).len() implies #[trigger] views_of(v)[i].wf() by {
        let f = v[i];
        assert(f.path@.len() <= usize::MAX) by {
            assert(f.path.len() == f.path@.len());
        }
        match f.copyfrom {
            Some((p, _)) => {
                assert(p@.len() <= usize::MAX) by {
                    assert(p.len() == p@.len());
                }
            }
            None => {}
        }
    }
}

/// Round trip, point: a store holding the encoding of record `f` at the
/// point key, with the key not failing, resolves that key to exactly `f`.
pub proof fn lemma_point_round_trip(s: StoreView, pk: CacheKeyView, f: FilenodeInfoView)
    requires
        f.wf(),
        !s.fails.contains(pk),
        s.m.contains_key(pk),
        s.m[pk] == enc_record(f),
    ensures
        resolve_point(s, pk) == Some(f),
{
    lemma_dec_record_full(f);
}

/// Round trip, inline list: a store holding `Data(rs)` at the root key,
/// with the key not failing, resolves the history to exactly `rs`.
pub proof fn lemma_history_round_trip_data(
    s: StoreView,
    gen: KeyGenView,
    repo_id: i32,
    digest: Seq<u8>,
    rs: Seq<FilenodeInfoView>,
)
    requires
        all_wf(rs),
        rs.len() <= u64::MAX,
        !s.fails.contains(root_key(gen, repo_id, digest)),
        s.m.contains_key(root_key(gen, repo_id, digest)),
        s.m[root_key(gen, repo_id, digest)] == enc_data(rs),
    ensures
        resolve_history(s, gen, repo_id, digest) == Some(rs),
{
    lemma_dec_data(rs);
}

proof fn lemma_chunk_blob_eq(
    s: StoreView,
    gen: KeyGenView,
    repo_id: i32,
    digest: Seq<u8>,
    ps: Seq<i64>,
    cs: Seq<Seq<u8>>,
)
    requires
        ps.len() == cs.len(),
        forall|j: int| 0 <= j < ps.len() ==> !s.fails.contains(
            #[trigger] chunk_key(gen, repo_id, digest, ps[j]),
        ) && s.m.contains_key(chunk_key(gen, repo_id, digest, ps[j])) && s.m[chunk_key(
            gen,
            repo_id,
            digest,
            ps[j],
        )] == cs[j],
    ensures
        chunks_ok(s, gen, repo_id, digest, ps),
        chunk_blob(s, gen, repo_id, digest, ps) == concat_of(cs),
    decreases ps.len(),
{
    if ps.len() == 0 {
        assert(chunk_blob(s, gen, repo_id, digest, ps) =~= concat_of(cs));
    } else {
        let pt = ps.drop_first();
        let ct = cs.drop_first();
        assert forall|j: int| 0 <= j < pt.len() implies !s.fails.contains(
            #[trigger] chunk_key(gen, repo_id, digest, pt[j]),
        ) && s.m.contains_key(chunk_key(gen, repo_id, digest, pt[j])) && s.m[chunk_key(
            gen,
            repo_id,
            digest,
            pt[j],
        )] == ct[j] by {
            assert(pt[j] == ps[j + 1]);
            assert(ct[j] == cs[j + 1]);
        }
        lemma_chunk_blob_eq(s, gen, repo_id, digest, pt, ct);
        assert(s.m[chunk_key(gen, repo_id, digest, ps[0])] == cs[0]);
    }
}

/// Round trip, chunked list: a store holding `Pointers(ps)` at the root
/// key and the chunks of `Data(rs)` at the chunk keys of `ps`, in order,
/// none failing, resolves the history to exactly `rs`.
pub proof fn lemma_history_round_trip_pointers(
    s: StoreView,
    gen: KeyGenView,
    repo_id: i32,
    digest: Seq<u8>,
    ps: Seq<i64>,
    cs: Seq<Seq<u8>>,
    rs: Seq<FilenodeInfoView>,
)
    requires
        all_wf(rs),
        rs.len() <= u64::MAX,
        ps.len() <= u64::MAX,
        ps.len() == cs.len(),
        !s.fails.contains(root_key(gen, repo_id, digest)),
        s.m.contains_key(root_key(gen, repo_id, digest)),
        s.m[root_key(gen, repo_id, digest)] == enc_pointers(ps),
        forall|j: int| 0 <= j < ps.len() ==> !s.fails.contains(
            #[trigger] chunk_key(gen, repo_id, digest, ps[j]),
        ) && s.m.contains_key(chunk_key(gen, repo_id, digest, ps[j])) && s.m[chunk_key(
            gen,
            repo_id,
            digest,
            ps[j],
        )] == cs[j],
        concat_of(cs) == enc_data(rs),
    ensures
        resolve_history(s, gen, repo_id, digest) == Some(rs),
{
    lemma_dec_pointers(ps);
    lemma_chunk_blob_eq(s, gen, repo_id, digest, ps, cs);
    lemma_dec_data(rs);
}

proof fn lemma_chunk_blob_same(
    s0: StoreView,
    s1: StoreView,
    gen: KeyGenView,
    repo_id: i32,
    digest: Seq<u8>,
    ps: Seq<i64>,
)
    requires
        s1.fails == s0.fails,
        forall|p: i64| #[trigger] untouched(s0, s1, chunk_key(gen, repo_id, digest, p)),
    ensures
        chunks_ok(s1, gen, repo_id, digest, ps) == chunks_ok(s0, gen, repo_id, digest, ps),
        chunks_ok(s0, gen, repo_id, digest, ps) ==> chunk_blob(s1, gen, repo_id, digest, ps)
            == chunk_blob(s0, gen, repo_id, digest, ps),
    decreases ps.len(),
{
    if ps.len() == 0 {
    } else {
        lemma_chunk_blob_same(s0, s1, gen, repo_id, digest, ps.drop_first());
        assert(untouched(s0, s1, chunk_key(gen, repo_id, digest, ps[0])));
        assert forall|j: int| 0 <= j < ps.len() implies untouched(
            s0,
            s1,
            #[trigger] chunk_key(gen, repo_id, digest, ps[j]),
        ) by {}
        assert forall|j: int|
            0 <= j < ps.drop_first().len() ==> ps.drop_first()[j] == ps[j + 1] by {}
        if chunks_ok(s0, gen, repo_id, digest, ps) {
            assert(chunks_ok(s1, gen, repo_id, digest, ps)) by {
                assert forall|j: int| 0 <= j < ps.len() implies !s1.fails.contains(
                    #[trigger] chunk_key(gen, repo_id, digest, ps[j]),
                ) && s1.m.contains_key(chunk_key(gen, repo_id, digest, ps[j])) by {
                    assert(untouched(s0, s1, chunk_key(gen, repo_id, digest, ps[j])));
                }
            }
        }
        if chunks_ok(s1, gen, repo_id, digest, ps) {
            assert(chunks_ok(s0, gen, repo_id, digest, ps)) by {
                assert forall|j: int| 0 <= j < ps.len() implies !s0.fails.contains(
                    #[trigger] chunk_key(gen, repo_id, digest, ps[j]),
                ) && s0.m.contains_key(chunk_key(gen, repo_id, digest, ps[j])) by {
                    assert(untouched(s0, s1, chunk_key(gen, repo_id, digest, ps[j])));
                }
            }
        }
    }
}

/// A read of one root's family sees only that family: if every key of the
/// family of `(repo_id, digest)` is untouched between two stores with the
/// same failure set, the resolved history is the same in both.
pub proof fn lemma_resolve_history_same(
    s0: StoreView,
    s1: StoreView,
    gen: KeyGenView,
    repo_id: i32,
    digest: Seq<u8>,
)
    requires
        s1.fails == s0.fails,
        untouched(s0, s1, root_key(gen, repo_id, digest)),
        forall|p: i64| #[trigger] untouched(s0, s1, chunk_key(gen, repo_id, digest, p)),
    ensures
        resolve_history(s1, gen, repo_id, digest) == resolve_history(s0, gen, repo_id, digest),
{
    let rk = root_key(gen, repo_id, digest);
    if !s0.fails.contains(rk) && s0.m.contains_key(rk) {
        match dec_list(s0.m[rk]) {
            Some(FilenodeInfoListView::Pointers(ps)) => {
                lemma_chunk_blob_same(s0, s1, gen, repo_id, digest, ps);
            }
            _ => {}
        }
    }
}

/// Repository isolation: a fill under one repository (or one path digest)
/// never changes what a get under another repository or digest returns.
pub proof fn lemma_repository_isolation(
    s0: StoreView,
    s1: StoreView,
    gen: KeyGenView,
    repo_a: i32,
    digest_a: Seq<u8>,
    repo_b: i32,
    filenode_b: u64,
    digest_b: Seq<u8>,
)
    requires
        s1.fails == s0.fails,
        forall|k: CacheKeyView| !list_family(k, gen, repo_a, digest_a) ==> #[trigger] untouched(
            s0,
            s1,
            k,
        ),
        repo_b != repo_a || digest_b != digest_a,
    ensures
        resolve_history(s1, gen, repo_b, digest_b) == resolve_history(s0, gen, repo_b, digest_b),
        resolve_point(s1, point_key(gen, repo_b, filenode_b, digest_b)) == resolve_point(
            s0,
            point_key(gen, repo_b, filenode_b, digest_b),
        ),
{
    assert(!list_family(root_key(gen, repo_b, digest_b), gen, repo_a, digest_a));
    assert(untouched(s0, s1, root_key(gen, repo_b, digest_b)));
    assert forall|p: i64| #[trigger] untouched(
        s0,
        s1,
        chunk_key(gen, repo_b, digest_b, p),
    ) by {
        assert(!list_family(chunk_key(gen, repo_b, digest_b, p), gen, repo_a, digest_a));
    }
    lemma_resolve_history_same(s0, s1, gen, repo_b, digest_b);
    assert(!list_family(point_key(gen, repo_b, filenode_b, digest_b), gen, repo_a, digest_a));
    assert(untouched(s0, s1, point_key(gen, repo_b, filenode_b, digest_b)));
}

/// A point fill never changes what any other key resolves to, point or
/// list, whatever its repository or digest.
pub proof fn lemma_point_fill_isolation(
    s0: StoreView,
    s1: StoreView,
    pk: CacheKeyView,
    f: FilenodeInfoView,
    gen: KeyGenView,
    repo_b: i32,
    filenode_b: u64,
    digest_b: Seq<u8>,
)
    requires
        pk is Point,
        point_fill_post(s0, s1, pk, f),
    ensures
        resolve_history(s1, gen, repo_b, digest_b) == resolve_history(s0, gen, repo_b, digest_b),
        point_key(gen, repo_b, filenode_b, digest_b) != pk ==> resolve_point(
            s1,
            point_key(gen, repo_b, filenode_b, digest_b),
        ) == resolve_point(s0, point_key(gen, repo_b, filenode_b, digest_b)),
{
    assert(untouched(s0, s1, root_key(gen, repo_b, digest_b)));
    assert forall|p: i64| #[trigger] untouched(
        s0,
        s1,
        chunk_key(gen, repo_b, digest_b, p),
    ) by {}
    lemma_resolve_history_same(s0, s1, gen, repo_b, digest_b);
    if point_key(gen, repo_b, filenode_b, digest_b) != pk {
        assert(untouched(s0, s1, point_key(gen, repo_b, filenode_b, digest_b)));
    }
}


// ---------------------------------------------------------------------------
// Configuration: namespace prefix and site-version override.
// ---------------------------------------------------------------------------

/// The fixed namespace in front of every key prefix
/// (the bytes of `scm.mononoke.filenodes.`).
pub open spec fn spec_namespace() -> Seq<u8> {
    seq![115u8, 99u8, 109u8, 46u8, 109u8, 111u8, 110u8, 111u8, 110u8, 111u8, 107u8, 101u8, 46u8, 102u8, 105u8, 108u8, 101u8, 110u8, 111u8, 100u8, 101u8, 115u8, 46u8]
}

/// The full key prefix for a backing store name and parameter string.
pub open spec fn spec_cache_prefix(name: Seq<u8>, params: Seq<u8>) -> Seq<u8> {
    spec_namespace() + name + seq![46u8] + params
}

fn namespace_prefix() -> (out: Vec<u8>)
    ensures
        out@ == spec_namespace(),
{
    let mut out: Vec<u8> = Vec::new();
    out.push(115u8);
    out.push(99u8);
    out.push(109u8);
    out.push(46u8);
    out.push(109u8);
    out.push(111u8);
    out.push(110u8);
    out.push(111u8);
    out.push(110u8);
    out.push(111u8);
    out.push(107u8);
    out.push(101u8);
    out.push(46u8);
    out.push(102u8);
    out.push(105u8);
    out.push(108u8);
    out.push(101u8);
    out.push(110u8);
    out.push(111u8);
    out.push(100u8);
    out.push(101u8);
    out.push(115u8);
    out.push(46u8);
    assert(out@ =~= spec_namespace());
    out
}

/// Decimal parse of the site-version override, most significant digit
/// first; `None` on the empty string, a non-digit, or overflow.
pub open spec fn spec_parse_digits(s: Seq<u8>, acc: nat) -> Option<nat>
    decreases s.len(),
{
    if s.len() == 0 {
        Some(acc)
    } else if 48 <= s[0] <= 57 {
        if acc * 10 + (s[0] - 48) > u32::MAX {
            None
        } else {
            spec_parse_digits(s.drop_first(), (acc * 10 + (s[0] - 48)) as nat)
        }
    } else {
        None
    }
}

pub open spec fn spec_parse_u32(s: Seq<u8>) -> Option<u32> {
    if s.len() == 0 {
        None
    } else {
        match spec_parse_digits(s, 0) {
            Some(n) => Some(n as u32),
            None => None,
        }
    }
}

/// Parse an unsigned decimal integer, exactly when `spec_parse_u32` does.
#[verifier::loop_isolation(false)]
pub fn parse_u32(s: &Vec<u8>) -> (r: Option<u32>)
    ensures
        r == spec_parse_u32(s@),
{
    if s.len() == 0 {
        return None;
    }
    let mut acc: u32 = 0;
    let mut i: usize = 0;
    proof {
        assert(s@.skip(0) =~= s@);
    }
    while i < s.len()
        invariant
            i <= s@.len(),
            spec_parse_digits(s@, 0) == spec_parse_digits(s@.skip(i as int), acc as nat),
        decreases s@.len() - i,
    {
        let c: u8 = s[i];
        proof {
            assert(s@.skip(i as int)[0] == s@[i as int]);
        }
        if c < 48 || c > 57 {
            return None;
        }
        let d: u32 = (c - 48) as u32;
        let wide: u64 = (acc as u64) * 10 + (d as u64);
        if wide > 0xffffffffu64 {
            return None;
        }
        proof {
            assert(s@.skip(i as int).drop_first() =~= s@.skip(i as int + 1));
        }
        acc = wide as u32;
        i = i + 1;
    }
    proof {
        assert(s@.skip(s@.len() as int).len() == 0);
    }
    Some(acc)
}

/// The effective site version: the override parsed as an unsigned integer,
/// falling back to the fixed constant on absence or parse failure.
pub open spec fn spec_sitever(o: Option<Vec<u8>>) -> u32 {
    match o {
        None => MC_SITEVER,
        Some(v) => match spec_parse_u32(v@) {
            Some(x) => x,
            None => MC_SITEVER,
        },
    }
}


// ---------------------------------------------------------------------------
// Reads.
// ---------------------------------------------------------------------------

proof fn lemma_chunk_blob_app(
    s: StoreView,
    gen: KeyGenView,
    repo_id: i32,
    digest: Seq<u8>,
    qs: Seq<i64>,
    p: i64,
)
    ensures
        chunk_blob(s, gen, repo_id, digest, qs.push(p)) == chunk_blob(s, gen, repo_id, digest, qs)
            + s.m[chunk_key(gen, repo_id, digest, p)],
    decreases qs.len(),
{
    let ck = chunk_key(gen, repo_id, digest, p);
    if qs.len() == 0 {
        assert(qs.push(p)[0] == p);
        assert(qs.push(p).drop_first() =~= Seq::<i64>::empty());
        assert(s.m[ck] + chunk_blob(s, gen, repo_id, digest, Seq::<i64>::empty()) =~= s.m[ck]);
        assert(chunk_blob(s, gen, repo_id, digest, qs) + s.m[ck] =~= s.m[ck]);
    } else {
        assert(qs.push(p)[0] == qs[0]);
        assert(qs.push(p).drop_first() =~= qs.drop_first().push(p));
        lemma_chunk_blob_app(s, gen, repo_id, digest, qs.drop_first(), p);
        let h = s.m[chunk_key(gen, repo_id, digest, qs[0])];
        assert(h + (chunk_blob(s, gen, repo_id, digest, qs.drop_first()) + s.m[ck]) =~= (h
            + chunk_blob(s, gen, repo_id, digest, qs.drop_first())) + s.m[ck]);
    }
}

/// Point read: transport failure, miss, and an undecodable payload all
/// collapse to absent; the second result is the counter event the read
/// observed.
pub fn get_single_filenode_from_memcache(
    memcache: &Store,
    keygen: &KeyGen,
    repo_id: i32,
    filenode: u64,
    path_hash: &PathHash,
) -> (r: (Option<FilenodeInfo>, PointReadEvent))
    requires
        memcache.wf(),
    ensures
        opt_record_view(r.0) == resolve_point(
            memcache@,
            point_key(keygen@, repo_id, filenode, path_hash@),
        ),
        r.1 == classify_point_read(memcache@, point_key(keygen@, repo_id, filenode, path_hash@)),
{
    let key = get_mc_key_for_single_filenode(keygen, repo_id, filenode, path_hash);
    match memcache.get(&key) {
        Err(_) => (None, PointReadEvent::InternalErr),
        Ok(None) => (None, PointReadEvent::Miss),
        Ok(Some(serialized)) => match deserialize_filenode(&serialized) {
            Some(f) => (Some(f), PointReadEvent::Hit),
            None => (None, PointReadEvent::DeserializeErr),
        },
    }
}

/// List read: an inline root is decoded directly; a pointer root fans out
/// to its chunks, whose concatenation must decode to an inline list.  Any
/// failure, unknown tag, missing chunk or nested pointer list is absent;
/// the second result is the counter event the read observed.
#[verifier::loop_isolation(false)]
#[verifier::rlimit(100)]
pub fn get_history_from_memcache(
    memcache: &Store,
    keygen: &KeyGen,
    repo_id: i32,
    path_hash: &PathHash,
) -> (r: (Option<Vec<FilenodeInfo>>, ListReadEvent))
    requires
        memcache.wf(),
    ensures
        opt_history_view(r.0) == resolve_history(memcache@, keygen@, repo_id, path_hash@),
        r.1 == classify_list_read(memcache@, keygen@, repo_id, path_hash@),
{
    let ghost s = memcache@;
    let ghost gen = keygen@;
    let ghost digest = path_hash@;
    let key = get_mc_key_for_filenodes_list(keygen, repo_id, path_hash);
    let serialized = match memcache.get(&key) {
        Err(_) => {
            return (None, ListReadEvent::InternalErr);
        }
        Ok(None) => {
            return (None, ListReadEvent::Miss);
        }
        Ok(Some(v)) => v,
    };
    match deserialize_list(&serialized) {
        None => (None, ListReadEvent::DeserializeErr),
        Some(FilenodeInfoList::UnknownField) => (None, ListReadEvent::DeserializeErr),
        Some(FilenodeInfoList::Data(list)) => (Some(list), ListReadEvent::HitData),
        Some(FilenodeInfoList::Pointers(list)) => {
            let ghost ps = list@;
            let mut blob: Vec<u8> = Vec::new();
            let mut j: usize = 0;
            proof {
                assert(blob@ =~= chunk_blob(s, gen, repo_id, digest, ps.take(0)));
            }
            while j < list.len()
                invariant
                    j <= ps.len(),
                    blob@ == chunk_blob(s, gen, repo_id, digest, ps.take(j as int)),
                    forall|jj: int| 0 <= jj < j ==> !s.fails.contains(
                        #[trigger] chunk_key(gen, repo_id, digest, ps[jj]),
                    ) && s.m.contains_key(chunk_key(gen, repo_id, digest, ps[jj])),
                decreases ps.len() - j,
            {
                let ck = get_mc_key_for_filenodes_list_chunk(keygen, repo_id, path_hash, list[j]);
                match memcache.get(&ck) {
                    Ok(Some(chunk)) => {
                        crate::codec::push_slice(&mut blob, &chunk);
                        proof {
                            lemma_chunk_blob_app(s, gen, repo_id, digest, ps.take(j as int),
                                ps[j as int]);
                            assert(ps.take(j as int + 1) =~= ps.take(j as int).push(ps[j as int]));
                        }
                        j = j + 1;
                    }
                    Ok(None) => {
                        proof {
                            assert(!chunks_ok(s, gen, repo_id, digest, ps));
                        }
                        return (None, ListReadEvent::PointersErr);
                    }
                    Err(_) => {
                        proof {
                            assert(!chunks_ok(s, gen, repo_id, digest, ps));
                        }
                        return (None, ListReadEvent::PointersErr);
                    }
                }
            }
            proof {
                assert(ps.take(ps.len() as int) =~= ps);
                assert(chunks_ok(s, gen, repo_id, digest, ps));
            }
            match deserialize_list(&blob) {
                Some(FilenodeInfoList::Data(list2)) => (Some(list2), ListReadEvent::HitChunked),
                Some(FilenodeInfoList::Pointers(_)) => (None, ListReadEvent::PointersErr),
                Some(FilenodeInfoList::UnknownField) => (None, ListReadEvent::PointersErr),
                None => (None, ListReadEvent::PointersErr),
            }
        }
    }
}

// ---------------------------------------------------------------------------
// Fills.
// ---------------------------------------------------------------------------

/// Point fill: encode the record and store it under the point key, unless
/// the encoding reaches the per-value limit, in which case the fill is
/// dropped silently; a transport failure is swallowed the same way.
#[verifier::loop_isolation(false)]
pub fn fill_filenode(
    memcache: &mut Store,
    keygen: &KeyGen,
    repo_id: i32,
    filenode_id: u64,
    path_hash: &PathHash,
    filenode: &FilenodeInfo,
)
    requires
        old(memcache).wf(),
    ensures
        final(memcache).wf(),
        point_fill_post(
            old(memcache)@,
            final(memcache)@,
            point_key(keygen@, repo_id, filenode_id, path_hash@),
            filenode@,
        ),
{
    let ghost s0 = memcache@;
    let ghost pk = point_key(keygen@, repo_id, filenode_id, path_hash@);
    let serialized = serialize_filenode(filenode);
    if serialized.len() < MEMCACHE_VALUE_MAX_SIZE {
        let key = get_mc_key_for_single_filenode(keygen, repo_id, filenode_id, path_hash);
        match memcache.set(key, serialized) {
            Ok(_) => {
                proof {
                    assert forall|k: CacheKeyView| k != pk implies #[trigger] untouched(
                        s0,
                        memcache@,
                        k,
                    ) by {}
                }
            }
            Err(_) => {
                proof {
                    assert forall|k: CacheKeyView| k != pk implies #[trigger] untouched(
                        s0,
                        memcache@,
                        k,
                    ) by {}
                }
            }
        }
    } else {
        proof {
            assert forall|k: CacheKeyView| k != pk implies #[trigger] untouched(
                s0,
                memcache@,
                k,
            ) by {}
        }
    }
}

/// Why a list fill gave up.  Chunks already written before the failure may
/// remain in the store as unreferenced entries until they expire.
#[derive(Clone, Copy, Debug, PartialEq, Eq)]
pub enum FillHistoryError {
    /// The store refused the write of the root key.
    RootStoreFailed,
    /// The store refused the write of one of the chunks.
    ChunkStoreFailed,
    /// The bounded random pointer draws were exhausted by collisions.
    PointerDrawExhausted,
    /// The encoded pointer list itself exceeded the per-value size limit.
    PointerRootTooLarge,
}

/// List fill: a small encoding is stored inline at the root with a
/// jittered time-to-live; a large one is split into chunks stored first,
/// under fresh pairwise-distinct random pointers with the maximal fixed
/// time-to-live, and only when every chunk landed is the pointer root
/// written.  Any failure aborts with the root untouched, and the error
/// names its cause.
#[verifier::loop_isolation(false)]
#[verifier::rlimit(100)]
pub fn fill_history(
    memcache: &mut Store,
    keygen: &KeyGen,
    repo_id: i32,
    path_hash: &PathHash,
    filenodes: &Vec<FilenodeInfo>,
) -> (r: Result<(), FillHistoryError>)
    requires
        old(memcache).wf(),
    ensures
        final(memcache).wf(),
        list_fill_post(
            old(memcache)@,
            final(memcache)@,
            keygen@,
            repo_id,
            path_hash@,
            views_of(filenodes@),
            r is Ok,
        ),
        match r {
            Ok(o) => true,
            Err(e) => match e {
                FillHistoryError::RootStoreFailed => old(memcache)@.fails.contains(
                    root_key(keygen@, repo_id, path_hash@),
                ),
                FillHistoryError::ChunkStoreFailed => exists|q: i64|
                    old(memcache)@.fails.contains(
                        #[trigger] chunk_key(keygen@, repo_id, path_hash@, q),
                    ),
                FillHistoryError::PointerDrawExhausted => enc_data(views_of(filenodes@)).len()
                    >= MEMCACHE_VALUE_MAX_SIZE,
                FillHistoryError::PointerRootTooLarge => enc_data(views_of(filenodes@)).len()
                    >= MEMCACHE_VALUE_MAX_SIZE,
            },
        },
{
    let ghost s0 = memcache@;
    let ghost gen = keygen@;
    let ghost digest = path_hash@;
    let ghost vs = views_of(filenodes@);
    let ghost rk = root_key(gen, repo_id, digest);
    proof {
        lemma_views_wf(filenodes@);
        assert(filenodes@.len() <= usize::MAX) by {
            assert(filenodes.len() == filenodes@.len());
        }
    }
    let serialized = serialize_history(filenodes);
    if serialized.len() < MEMCACHE_VALUE_MAX_SIZE {
        let root_key_c = get_mc_key_for_filenodes_list(keygen, repo_id, path_hash);
        let draw: u64 = rand::random::<u64>();
        let ttl = root_ttl_from_draw(draw);
        match memcache.set_with_ttl(root_key_c, serialized, ttl) {
            Ok(_) => {
                proof {
                    assert forall|k: CacheKeyView| !list_family(k, gen, repo_id, digest)
                        implies #[trigger] untouched(s0, memcache@, k) by {
                        assert(k != rk);
                    }
                    lemma_history_round_trip_data(memcache@, gen, repo_id, digest, vs);
                }
                Ok(())
            }
            Err(_) => {
                proof {
                    assert forall|k: CacheKeyView| !list_family(k, gen, repo_id, digest)
                        implies #[trigger] untouched(s0, memcache@, k) by {}
                }
                Err(FillHistoryError::RootStoreFailed)
            }
        }
    } else {
        let chunks = crate::codec::chunk_split(&serialized);
        let ghost cs = crate::codec::seqs_of(chunks@);
        let mut pointers_iter = PointersIter::new();
        let mut pointers: Vec<i64> = Vec::new();
        let cttl = chunk_ttl();
        let mut i: usize = 0;
        while i < chunks.len()
            invariant
                memcache.wf(),
                i <= chunks@.len(),
                cs == crate::codec::seqs_of(chunks@),
                pointers@.len() == i,
                pointers@.no_duplicates(),
                pointers_iter.seen@ == pointers@,
                memcache@.fails == s0.fails,
                forall|k: CacheKeyView| !chunk_family(k, gen, repo_id, digest)
                    ==> #[trigger] untouched(s0, memcache@, k),
                forall|j: int| 0 <= j < i ==> !memcache@.fails.contains(
                    #[trigger] chunk_key(gen, repo_id, digest, pointers@[j]),
                ) && memcache@.m.contains_key(chunk_key(gen, repo_id, digest, pointers@[j]))
                    && memcache@.m[chunk_key(gen, repo_id, digest, pointers@[j])] == cs[j]
                    && memcache@.ttl.contains_key(chunk_key(gen, repo_id, digest, pointers@[j]))
                    && memcache@.ttl[chunk_key(gen, repo_id, digest, pointers@[j])]
                    == crate::ttl::TTL_SEC + crate::ttl::TTL_SEC_RAND,
            decreases chunks@.len() - i,
        {
            let p: i64 = match pointers_iter.next() {
                Some(p) => p,
                None => {
                    proof {
                        assert(!chunk_family(rk, gen, repo_id, digest));
                        assert(untouched(s0, memcache@, rk));
                        assert forall|k: CacheKeyView| !list_family(k, gen, repo_id, digest)
                            implies #[trigger] untouched(s0, memcache@, k) by {}
                    }
                    return Err(FillHistoryError::PointerDrawExhausted);
                }
            };
            let ck = get_mc_key_for_filenodes_list_chunk(keygen, repo_id, path_hash, p);
            let ghost s_pre = memcache@;
            let chunk = clone_bytes(&chunks[i]);
            proof {
                assert(cs[i as int] == chunks@[i as int]@);
                assert(crate::codec::seqs_of(chunks@)[i as int].len()
                    <= MEMCACHE_VALUE_MAX_SIZE);
            }
            match memcache.set_with_ttl(ck, chunk, cttl) {
                Ok(_) => {
                    proof {
                        let ckv = chunk_key(gen, repo_id, digest, p);
                        assert forall|k: CacheKeyView| !chunk_family(k, gen, repo_id, digest)
                            implies #[trigger] untouched(s0, memcache@, k) by {
                            assert(untouched(s0, s_pre, k));
                            assert(k != ckv);
                        }
                        assert forall|j: int| 0 <= j < i + 1 implies !memcache@.fails.contains(
                            #[trigger] chunk_key(gen, repo_id, digest, pointers@.push(p)[j]),
                        ) && memcache@.m.contains_key(
                            chunk_key(gen, repo_id, digest, pointers@.push(p)[j]),
                        ) && memcache@.m[chunk_key(gen, repo_id, digest, pointers@.push(p)[j])]
                            == cs[j] && memcache@.ttl.contains_key(
                            chunk_key(gen, repo_id, digest, pointers@.push(p)[j]),
                        ) && memcache@.ttl[chunk_key(gen, repo_id, digest, pointers@.push(p)[j])]
                            == crate::ttl::TTL_SEC + crate::ttl::TTL_SEC_RAND by {
                            if j < i {
                                assert(pointers@.push(p)[j] == pointers@[j]);
                                assert(pointers@[j] != p) by {
                                    if pointers@[j] == p {
                                        assert(pointers@.contains(p));
                                    }
                                }
                                assert(chunk_key(gen, repo_id, digest, pointers@[j]) != ckv);
                            } else {
                                assert(pointers@.push(p)[j] == p);
                            }
                        }
                        assert(pointers@.push(p).no_duplicates()) by {
                            assert forall|a: int, b: int|
                                0 <= a < b < pointers@.push(p).len() implies pointers@.push(p)[a]
                                != pointers@.push(p)[b] by {
                                if b == pointers@.len() {
                                    if pointers@[a] == p {
                                        assert(pointers@.contains(p));
                                    }
                                }
                            }
                        }
                    }
                    pointers.push(p);
                    i = i + 1;
                }
                Err(_) => {
                    proof {
                        assert(!chunk_family(rk, gen, repo_id, digest));
                        assert forall|k: CacheKeyView| !list_family(k, gen, repo_id, digest)
                            implies #[trigger] untouched(s0, memcache@, k) by {}
                        assert(s0.fails.contains(chunk_key(gen, repo_id, digest, p)));
                    }
                    return Err(FillHistoryError::ChunkStoreFailed);
                }
            }
        }
        let root_bytes = serialize_pointers(&pointers);
        if root_bytes.len() > MEMCACHE_VALUE_MAX_SIZE {
            proof {
                assert(!chunk_family(rk, gen, repo_id, digest));
                assert forall|k: CacheKeyView| !list_family(k, gen, repo_id, digest)
                    implies #[trigger] untouched(s0, memcache@, k) by {}
            }
            return Err(FillHistoryError::PointerRootTooLarge);
        }
        let ghost s_mid = memcache@;
        let root_key_c = get_mc_key_for_filenodes_list(keygen, repo_id, path_hash);
        let draw: u64 = rand::random::<u64>();
        let ttl = root_ttl_from_draw(draw);
        match memcache.set_with_ttl(root_key_c, root_bytes, ttl) {
            Ok(_) => {
                proof {
                    let s1 = memcache@;
                    assert forall|k: CacheKeyView| !list_family(k, gen, repo_id, digest)
                        implies #[trigger] untouched(s0, s1, k) by {
                        assert(!chunk_family(k, gen, repo_id, digest));
                        assert(untouched(s0, s_mid, k));
                        assert(k != rk);
                    }
                    assert forall|j: int| 0 <= j < pointers@.len() implies !s1.fails.contains(
                        #[trigger] chunk_key(gen, repo_id, digest, pointers@[j]),
                    ) && s1.m.contains_key(chunk_key(gen, repo_id, digest, pointers@[j]))
                        && s1.m[chunk_key(gen, repo_id, digest, pointers@[j])] == cs[j]
                        && s1.ttl.contains_key(chunk_key(gen, repo_id, digest, pointers@[j]))
                        && s1.ttl[chunk_key(gen, repo_id, digest, pointers@[j])]
                        == crate::ttl::TTL_SEC + crate::ttl::TTL_SEC_RAND by {
                        assert(chunk_key(gen, repo_id, digest, pointers@[j]) != rk);
                    }
                    lemma_history_round_trip_pointers(s1, gen, repo_id, digest, pointers@, cs, vs);
                    lemma_chunk_blob_eq(s1, gen, repo_id, digest, pointers@, cs);
                    assert(crate::codec::concat_of(cs) == enc_data(vs));
                    assert(chunked_root_stored(s1, gen, repo_id, digest, vs, pointers@)) by {
                        assert forall|j: int| 0 <= j < pointers@.len() implies {
                            let ck = #[trigger] chunk_key(gen, repo_id, digest, pointers@[j]);
                            0 < s1.m[ck].len() <= MEMCACHE_VALUE_MAX_SIZE && (j < pointers@.len()
                                - 1 ==> s1.m[ck].len() == MEMCACHE_VALUE_MAX_SIZE)
                                && s1.ttl.contains_key(ck) && s1.ttl[ck] == crate::ttl::TTL_SEC
                                + crate::ttl::TTL_SEC_RAND
                        } by {
                            assert(cs[j] == crate::codec::seqs_of(chunks@)[j]);
                            assert(0 < crate::codec::seqs_of(chunks@)[j].len()
                                <= MEMCACHE_VALUE_MAX_SIZE);
                            if j < pointers@.len() - 1 {
                                assert(crate::codec::seqs_of(chunks@)[j].len()
                                    == MEMCACHE_VALUE_MAX_SIZE);
                            }
                        }
                    }
                }
                Ok(())
            }
            Err(_) => {
                proof {
                    assert(!chunk_family(rk, gen, repo_id, digest));
                    assert forall|k: CacheKeyView| !list_family(k, gen, repo_id, digest)
                        implies #[trigger] untouched(s0, memcache@, k) by {}
                }
                Err(FillHistoryError::RootStoreFailed)
            }
        }
    }
}


// ---------------------------------------------------------------------------
// The cache facade.
// ---------------------------------------------------------------------------

/// A cache bound to one store and one key generator.
pub struct MemcacheCache {
    pub memcache: Store,
    pub keygen: KeyGen,
}

impl MemcacheCache {
    pub open spec fn wf(self) -> bool {
        self.memcache.wf()
    }

    /// Build a cache over the given store.  The key prefix is the fixed
    /// namespace, the backing store name and its parameter string; the site
    /// version comes from the override when it parses as an unsigned
    /// integer, and from the fixed constant otherwise.
    pub fn new(
        store: Store,
        backing_store_name: &Vec<u8>,
        backing_store_params: &Vec<u8>,
        sitever_override: Option<Vec<u8>>,
    ) -> (r: Self)
        requires
            store.wf(),
        ensures
            r.wf(),
            r.memcache == store,
            r.keygen@.prefix == spec_cache_prefix(backing_store_name@, backing_store_params@),
            r.keygen@.codever == MC_CODEVER,
            r.keygen@.sitever == spec_sitever(sitever_override),
    {
        let ghost so = sitever_override;
        let mut prefix = namespace_prefix();
        crate::codec::push_slice(&mut prefix, backing_store_name);
        prefix.push(46u8);
        crate::codec::push_slice(&mut prefix, backing_store_params);
        proof {
            assert(prefix@ =~= spec_cache_prefix(backing_store_name@, backing_store_params@));
        }
        let mc_sitever: u32 = match sitever_override {
            Some(v) => match parse_u32(&v) {
                Some(x) => x,
                None => MC_SITEVER,
            },
            None => MC_SITEVER,
        };
        MemcacheCache { memcache: store, keygen: KeyGen::new(prefix, MC_CODEVER, mc_sitever) }
    }
}

/// The remote cache: either a real cache over a store, or the disabled
/// variant, which never holds a value and never touches any transport.
pub enum RemoteCache {
    Memcache(MemcacheCache),
    Noop,
}

impl RemoteCache {
    pub open spec fn wf(self) -> bool {
        match self {
            RemoteCache::Memcache(mc) => mc.wf(),
            RemoteCache::Noop => true,
        }
    }

    /// Point read; the disabled variant is always absent.
    pub fn get_filenode(&self, repo_id: i32, path: &Vec<u8>, filenode_id: u64) -> (r: Option<
        FilenodeInfo,
    >)
        requires
            self.wf(),
        ensures
            match self {
                RemoteCache::Memcache(mc) => opt_record_view(r) == resolve_point(
                    mc.memcache@,
                    point_key(mc.keygen@, repo_id, filenode_id, digest_of(path@)),
                ),
                RemoteCache::Noop => r is None,
            },
    {
        match self {
            RemoteCache::Memcache(memcache) => {
                let path_hash = PathHash::from_repo_path(path);
                get_single_filenode_from_memcache(
                    &memcache.memcache,
                    &memcache.keygen,
                    repo_id,
                    filenode_id,
                    &path_hash,
                ).0
            }
            RemoteCache::Noop => None,
        }
    }

    /// Point fill; the disabled variant does nothing.
    pub fn fill_filenode(
        &mut self,
        repo_id: i32,
        path: &Vec<u8>,
        filenode_id: u64,
        filenode: FilenodeInfo,
    )
        requires
            old(self).wf(),
        ensures
            final(self).wf(),
            (*old(self)) is Noop ==> *final(self) == *old(self),
            (*old(self)) is Memcache ==> (*final(self)) is Memcache && final(self)->Memcache_0.keygen
                == old(self)->Memcache_0.keygen && point_fill_post(
                old(self)->Memcache_0.memcache@,
                final(self)->Memcache_0.memcache@,
                point_key(old(self)->Memcache_0.keygen@, repo_id, filenode_id, digest_of(path@)),
                filenode@,
            ),
    {
        match self {
            RemoteCache::Memcache(memcache) => {
                let path_hash = PathHash::from_repo_path(path);
                fill_filenode(
                    &mut memcache.memcache,
                    &memcache.keygen,
                    repo_id,
                    filenode_id,
                    &path_hash,
                    &filenode,
                );
            }
            RemoteCache::Noop => {}
        }
    }

    /// List read; the disabled variant is always absent.
    pub fn get_history(&self, repo_id: i32, path: &Vec<u8>) -> (r: Option<Vec<FilenodeInfo>>)
        requires
            self.wf(),
        ensures
            match self {
                RemoteCache::Memcache(mc) => opt_history_view(r) == resolve_history(
                    mc.memcache@,
                    mc.keygen@,
                    repo_id,
                    digest_of(path@),
                ),
                RemoteCache::Noop => r is None,
            },
    {
        match self {
            RemoteCache::Memcache(memcache) => {
                let path_hash = PathHash::from_repo_path(path);
                get_history_from_memcache(
                    &memcache.memcache,
                    &memcache.keygen,
                    repo_id,
                    &path_hash,
                ).0
            }
            RemoteCache::Noop => None,
        }
    }

    /// List fill; the disabled variant does nothing.  The fill's own
    /// outcome is swallowed, as a detached fill's would be: either it
    /// succeeded and the root now resolves to exactly this list, or it
    /// failed and the root is untouched.
    pub fn fill_history(&mut self, repo_id: i32, path: &Vec<u8>, filenodes: Vec<FilenodeInfo>)
        requires
            old(self).wf(),
        ensures
            final(self).wf(),
            (*old(self)) is Noop ==> *final(self) == *old(self),
            (*old(self)) is Memcache ==> (*final(self)) is Memcache && final(self)->Memcache_0.keygen
                == old(self)->Memcache_0.keygen && exists|ok: bool| list_fill_post(
                old(self)->Memcache_0.memcache@,
                final(self)->Memcache_0.memcache@,
                old(self)->Memcache_0.keygen@,
                repo_id,
                digest_of(path@),
                views_of(filenodes@),
                ok,
            ),
            (*old(self)) is Memcache && enc_data(views_of(filenodes@)).len()
                < MEMCACHE_VALUE_MAX_SIZE && !old(self)->Memcache_0.memcache@.fails.contains(
                root_key(old(self)->Memcache_0.keygen@, repo_id, digest_of(path@)),
            ) ==> resolve_history(
                final(self)->Memcache_0.memcache@,
                old(self)->Memcache_0.keygen@,
                repo_id,
                digest_of(path@),
            ) == Some(views_of(filenodes@)),
    {
        match self {
            RemoteCache::Memcache(memcache) => {
                let path_hash = PathHash::from_repo_path(path);
                let r = fill_history(
                    &mut memcache.memcache,
                    &memcache.keygen,
                    repo_id,
                    &path_hash,
                    &filenodes,
                );
                proof {
                    assert(list_fill_post(
                        old(self)->Memcache_0.memcache@,
                        memcache.memcache@,
                        memcache.keygen@,
                        repo_id,
                        digest_of(path@),
                        views_of(filenodes@),
                        r is Ok,
                    ));
                }
            }
            RemoteCache::Noop => {}
        }
    }
}

} // verus!
