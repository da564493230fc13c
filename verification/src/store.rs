//! In-memory model of the key-value transport behind the cache.
//!
//! The transport offers `get`, `set` and `set_with_ttl` over keys, with a
//! hard per-value size limit, and each operation may fail.  Failures are
//! injectable per key, or for every chunk key at once, so that the cache's
//! fail-closed behaviour can be exercised.  The model records the
//! time-to-live each entry was stored with, so contracts can speak of the
//! values handed to the transport; it never evicts (the cache layer must
//! stay correct under any eviction, since a missing key is simply a miss).

use vstd::prelude::*;
use vstd::pervasive::VecAdditionalExecFns;

use crate::MEMCACHE_VALUE_MAX_SIZE;
use crate::keys::CacheKey;
use crate::keys::CacheKeyView;
use crate::keys::key_eq;

verus! {

/// The time-to-live recorded for an entry stored without an explicit one:
/// the transport applies its own default.
pub const TRANSPORT_DEFAULT_TTL_SEC: u64 = 0;

/// Mathematical model of the store: the entries it holds, the time-to-live
/// each was stored with, and the set of keys on which operations fail.
pub struct StoreView {
    pub m: Map<CacheKeyView, Seq<u8>>,
    pub ttl: Map<CacheKeyView, u64>,
    pub fails: Set<CacheKeyView>,
}

/// The set of keys on which a store built with `new_with_failures` fails.
pub open spec fn fail_set_of(fail_keys: Seq<CacheKey>, fail_chunks: bool) -> Set<CacheKeyView> {
    Set::new(
        |k: CacheKeyView|
            (exists|i: int| 0 <= i < fail_keys.len() && fail_keys[i]@ == k) || (fail_chunks
                && k is Chunk),
    )
}

/// The in-memory key-value store.
pub struct Store {
    entries: Vec<(CacheKey, Vec<u8>, u64)>,
    fail_keys: Vec<CacheKey>,
    fail_chunks: bool,
}

impl Store {
    spec fn entry_at(self, i: int) -> CacheKeyView {
        self.entries@[i].0@
    }

    spec fn has_key(self, k: CacheKeyView) -> bool {
        exists|i: int| 0 <= i < self.entries@.len() && self.entry_at(i) == k
    }

    spec fn index_of(self, k: CacheKeyView) -> int {
        choose|i: int| 0 <= i < self.entries@.len() && self.entry_at(i) == k
    }

    spec fn spec_map(self) -> Map<CacheKeyView, Seq<u8>> {
        Map::new(
            |k: CacheKeyView| self.has_key(k),
            |k: CacheKeyView| self.entries@[self.index_of(k)].1@,
        )
    }

    spec fn spec_ttl_map(self) -> Map<CacheKeyView, u64> {
        Map::new(
            |k: CacheKeyView| self.has_key(k),
            |k: CacheKeyView| self.entries@[self.index_of(k)].2,
        )
    }

    spec fn spec_fails(self, k: CacheKeyView) -> bool {
        ||| exists|i: int| 0 <= i < self.fail_keys@.len() && self.fail_keys@[i]@ == k
        ||| (self.fail_chunks && k is Chunk)
    }

    /// Keys are unique among the entries.
    pub closed spec fn wf(self) -> bool {
        forall|i: int, j: int|
            0 <= i < j < self.entries@.len() ==> self.entry_at(i) != self.entry_at(j)
    }

    proof fn lemma_map_at(self, i: int)
        requires
            self.wf(),
            0 <= i < self.entries@.len(),
        ensures
            self.spec_map().contains_key(self.entry_at(i)),
            self.spec_map()[self.entry_at(i)] == self.entries@[i].1@,
            self.spec_ttl_map().contains_key(self.entry_at(i)),
            self.spec_ttl_map()[self.entry_at(i)] == self.entries@[i].2,
    {
        let k = self.entry_at(i);
        assert(self.has_key(k));
        let j = self.index_of(k);
        assert(0 <= j < self.entries@.len() && self.entry_at(j) == k);
        if i != j {
            assert(false);
        }
    }

    /// A fresh, empty store that never fails.
    pub fn new() -> (r: Self)
        ensures
            r.wf(),
            r@.m == Map::<CacheKeyView, Seq<u8>>::empty(),
            r@.ttl == Map::<CacheKeyView, u64>::empty(),
            r@.fails == Set::<CacheKeyView>::empty(),
    {
        let r = Store { entries: Vec::new(), fail_keys: Vec::new(), fail_chunks: false };
        proof {
            assert(r.spec_map() =~= Map::<CacheKeyView, Seq<u8>>::empty());
            assert(r.spec_ttl_map() =~= Map::<CacheKeyView, u64>::empty());
            assert(Set::new(|k: CacheKeyView| r.spec_fails(k)) =~= Set::<CacheKeyView>::empty());
        }
        r
    }

    /// A store whose operations fail on the given keys, and, if asked, on
    /// every chunk key.
    pub fn new_with_failures(fail_keys: Vec<CacheKey>, fail_chunks: bool) -> (r: Self)
        ensures
            r.wf(),
            r@.m == Map::<CacheKeyView, Seq<u8>>::empty(),
            r@.ttl == Map::<CacheKeyView, u64>::empty(),
            r@.fails == fail_set_of(fail_keys@, fail_chunks),
    {
        let ghost fk: Seq<CacheKey> = fail_keys@;
        let ghost fc: bool = fail_chunks;
        let r = Store { entries: Vec::new(), fail_keys, fail_chunks };
        proof {
            assert(r.spec_map() =~= Map::<CacheKeyView, Seq<u8>>::empty());
            assert(r.spec_ttl_map() =~= Map::<CacheKeyView, u64>::empty());
            assert(r@.fails =~= fail_set_of(fk, fc)) by {
                assert forall|k: CacheKeyView|
                    r@.fails.contains(k) == fail_set_of(fk, fc).contains(k) by {
                    assert(r@.fails.contains(k) == r.spec_fails(k));
                    assert(r.fail_keys@ == fk);
                    if r.spec_fails(k) {
                        if exists|i: int| 0 <= i < r.fail_keys@.len() && r.fail_keys@[i]@ == k {
                            let i = choose|i: int|
                                0 <= i < r.fail_keys@.len() && r.fail_keys@[i]@ == k;
                            assert(0 <= i < fk.len() && fk[i]@ == k);
                        }
                        assert(fail_set_of(fk, fc).contains(k));
                    }
                    if fail_set_of(fk, fc).contains(k) {
                        if exists|i: int| 0 <= i < fk.len() && fk[i]@ == k {
                            let i = choose|i: int| 0 <= i < fk.len() && fk[i]@ == k;
                            assert(0 <= i < r.fail_keys@.len() && r.fail_keys@[i]@ == k);
                        }
                        assert(r.spec_fails(k));
                    }
                }
            }
        }
        r
    }

    #[verifier::loop_isolation(false)]
    fn fails_on(&self, key: &CacheKey) -> (r: bool)
        ensures
            r == self@.fails.contains(key@),
    {
        if self.fail_chunks {
            match key {
                CacheKey::Chunk { .. } => {
                    return true;
                }
                _ => {}
            }
        }
        let mut i: usize = 0;
        while i < self.fail_keys.len()
            invariant
                i <= self.fail_keys@.len(),
                forall|j: int| 0 <= j < i ==> self.fail_keys@[j]@ != key@,
            decreases self.fail_keys@.len() - i,
        {
            if key_eq(&self.fail_keys[i], key) {
                return true;
            }
            i = i + 1;
        }
        false
    }

    /// Look a key up.  `Err` is a transport failure; `Ok(None)` a miss.
    #[verifier::loop_isolation(false)]
    pub fn get(&self, key: &CacheKey) -> (r: Result<Option<Vec<u8>>, ()>)
        requires
            self.wf(),
        ensures
            match r {
                Err(e) => self@.fails.contains(key@),
                Ok(o) => !self@.fails.contains(key@) && match o {
                    None => !self@.m.contains_key(key@),
                    Some(v) => self@.m.contains_key(key@) && v@ == self@.m[key@],
                },
            },
    {
        if self.fails_on(key) {
            return Err(());
        }
        let mut i: usize = 0;
        while i < self.entries.len()
            invariant
                i <= self.entries@.len(),
                forall|j: int| 0 <= j < i ==> self.entry_at(j) != key@,
            decreases self.entries@.len() - i,
        {
            if key_eq(&self.entries[i].0, key) {
                let v = crate::keys::clone_bytes(&self.entries[i].1);
                proof {
                    self.lemma_map_at(i as int);
                }
                return Ok(Some(v));
            }
            i = i + 1;
        }
        proof {
            assert(!self.has_key(key@));
        }
        Ok(None)
    }

    /// Store a value under a key with the given time-to-live, replacing any
    /// previous value.  The caller must respect the per-value size limit; a
    /// failing key leaves the store unchanged.  The time-to-live is
    /// recorded, not enforced: an entry may disappear at any time as far as
    /// readers are concerned, and the cache must treat that as a miss.
    #[verifier::loop_isolation(false)]
    pub fn set_with_ttl(&mut self, key: CacheKey, value: Vec<u8>, ttl_secs: u64) -> (r: Result<
        (),
        (),
    >)
        requires
            old(self).wf(),
            value@.len() <= MEMCACHE_VALUE_MAX_SIZE,
        ensures
            final(self).wf(),
            match r {
                Err(e) => old(self)@.fails.contains(key@) && final(self)@ == old(self)@,
                Ok(o) => !old(self)@.fails.contains(key@) && final(self)@.m == old(self)@.m.insert(
                    key@,
                    value@,
                ) && final(self)@.ttl == old(self)@.ttl.insert(key@, ttl_secs) && final(self)@.fails
                    == old(self)@.fails,
            },
    {
        if self.fails_on(&key) {
            return Err(());
        }
        let ghost old_self = *self;
        let mut i: usize = 0;
        while i < self.entries.len()
            invariant
                *self == old_self,
                i <= self.entries@.len(),
                forall|j: int| 0 <= j < i ==> self.entry_at(j) != key@,
            decreases self.entries@.len() - i,
        {
            if key_eq(&self.entries[i].0, &key) {
                let ghost kv = key@;
                self.entries.set(i, (key, value, ttl_secs));
                proof {
                    self.lemma_set_update(old_self, i as int, kv, value@, ttl_secs);
                }
                return Ok(());
            }
            i = i + 1;
        }
        let ghost kv = key@;
        self.entries.push((key, value, ttl_secs));
        proof {
            self.lemma_push_update(old_self, kv, value@, ttl_secs);
        }
        Ok(())
    }

    /// Store a value with the transport's default time-to-live.
    pub fn set(&mut self, key: CacheKey, value: Vec<u8>) -> (r: Result<(), ()>)
        requires
            old(self).wf(),
            value@.len() <= MEMCACHE_VALUE_MAX_SIZE,
        ensures
            final(self).wf(),
            match r {
                Err(e) => old(self)@.fails.contains(key@) && final(self)@ == old(self)@,
                Ok(o) => !old(self)@.fails.contains(key@) && final(self)@.m == old(self)@.m.insert(
                    key@,
                    value@,
                ) && final(self)@.ttl == old(self)@.ttl.insert(key@, TRANSPORT_DEFAULT_TTL_SEC)
                    && final(self)@.fails == old(self)@.fails,
            },
    {
        self.set_with_ttl(key, value, TRANSPORT_DEFAULT_TTL_SEC)
    }

    proof fn lemma_fails_same(self, other: Store)
        requires
            self.fail_keys@ == other.fail_keys@,
            self.fail_chunks == other.fail_chunks,
        ensures
            Set::new(|k: CacheKeyView| self.spec_fails(k)) == Set::new(
                |k: CacheKeyView| other.spec_fails(k),
            ),
    {
        assert(Set::new(|k: CacheKeyView| self.spec_fails(k)) =~= Set::new(
            |k: CacheKeyView| other.spec_fails(k),
        ));
    }

    proof fn lemma_set_update(
        self,
        older: Store,
        i: int,
        kv: CacheKeyView,
        vv: Seq<u8>,
        tv: u64,
    )
        requires
            older.wf(),
            0 <= i < older.entries@.len(),
            older.entry_at(i) == kv,
            self.entries@.len() == older.entries@.len(),
            forall|j: int|
                0 <= j < older.entries@.len() && j != i ==> self.entries@[j] == older.entries@[j],
            self.entry_at(i) == kv,
            self.entries@[i].1@ == vv,
            self.entries@[i].2 == tv,
            self.fail_keys@ == older.fail_keys@,
            self.fail_chunks == older.fail_chunks,
        ensures
            self.wf(),
            self.spec_map() == older.spec_map().insert(kv, vv),
            self.spec_ttl_map() == older.spec_ttl_map().insert(kv, tv),
            Set::new(|k: CacheKeyView| self.spec_fails(k)) == Set::new(
                |k: CacheKeyView| older.spec_fails(k),
            ),
    {
        assert(self.entries@.len() == older.entries@.len());
        assert forall|j: int|
            0 <= j < self.entries@.len() && j != i implies self.entry_at(j) == older.entry_at(
            j,
        ) by {}
        assert(self.wf());
        assert forall|k: CacheKeyView| self.has_key(k) <==> older.has_key(k) || k == kv by {
            if self.has_key(k) {
                let j = choose|j: int| 0 <= j < self.entries@.len() && self.entry_at(j) == k;
                if j == i {
                    assert(k == kv);
                } else {
                    assert(older.entry_at(j) == k);
                    assert(older.has_key(k));
                }
            }
            if older.has_key(k) {
                let j = choose|j: int| 0 <= j < older.entries@.len() && older.entry_at(j) == k;
                if j == i {
                    assert(self.entry_at(i) == kv);
                    assert(k == kv);
                    assert(self.has_key(k));
                } else {
                    assert(self.entry_at(j) == k);
                    assert(self.has_key(k));
                }
            }
            if k == kv {
                assert(self.entry_at(i) == k);
                assert(self.has_key(k));
            }
        }
        assert forall|k: CacheKeyView| #[trigger] self.has_key(k) implies self.spec_map()[k]
            == older.spec_map().insert(kv, vv)[k] && self.spec_ttl_map()[k]
            == older.spec_ttl_map().insert(kv, tv)[k] by {
            let j = self.index_of(k);
            assert(0 <= j < self.entries@.len() && self.entry_at(j) == k);
            self.lemma_map_at(j);
            if k == kv {
                assert(j == i);
            } else {
                assert(j != i);
                assert(older.entry_at(j) == k);
                older.lemma_map_at(j);
                assert(self.entries@[j].1@ == older.entries@[j].1@);
                assert(self.entries@[j].2 == older.entries@[j].2);
            }
        }
        assert(self.spec_map() =~= older.spec_map().insert(kv, vv));
        assert(self.spec_ttl_map() =~= older.spec_ttl_map().insert(kv, tv));
        self.lemma_fails_same(older);
    }

    proof fn lemma_push_update(self, older: Store, kv: CacheKeyView, vv: Seq<u8>, tv: u64)
        requires
            older.wf(),
            !older.has_key(kv),
            self.entries@.len() == older.entries@.len() + 1,
            forall|j: int|
                0 <= j < older.entries@.len() ==> self.entries@[j] == older.entries@[j],
            self.entry_at(older.entries@.len() as int) == kv,
            self.entries@[older.entries@.len() as int].1@ == vv,
            self.entries@[older.entries@.len() as int].2 == tv,
            self.fail_keys@ == older.fail_keys@,
            self.fail_chunks == older.fail_chunks,
        ensures
            self.wf(),
            self.spec_map() == older.spec_map().insert(kv, vv),
            self.spec_ttl_map() == older.spec_ttl_map().insert(kv, tv),
            Set::new(|k: CacheKeyView| self.spec_fails(k)) == Set::new(
                |k: CacheKeyView| older.spec_fails(k),
            ),
    {
        let n = older.entries@.len() as int;
        assert forall|j: int| 0 <= j < n implies self.entry_at(j) == older.entry_at(j) by {}
        assert(self.entry_at(n) == kv);
        assert(self.wf()) by {
            assert forall|i: int, j: int|
                0 <= i < j < self.entries@.len() implies self.entry_at(i) != self.entry_at(j) by {
                if j == n {
                    assert(self.entry_at(i) == older.entry_at(i));
                    if self.entry_at(i) == kv {
                        assert(older.has_key(kv));
                    }
                }
            }
        }
        assert forall|k: CacheKeyView| self.has_key(k) <==> older.has_key(k) || k == kv by {
            if self.has_key(k) {
                let j = choose|j: int| 0 <= j < self.entries@.len() && self.entry_at(j) == k;
                if j == n {
                    assert(k == kv);
                } else {
                    assert(older.has_key(k));
                }
            }
            if older.has_key(k) {
                let j = choose|j: int| 0 <= j < older.entries@.len() && older.entry_at(j) == k;
                assert(self.entry_at(j) == k);
                assert(self.has_key(k));
            }
            if k == kv {
                assert(self.entry_at(n) == k);
                assert(self.has_key(k));
            }
        }
        assert forall|k: CacheKeyView| #[trigger] self.has_key(k) implies self.spec_map()[k]
            == older.spec_map().insert(kv, vv)[k] && self.spec_ttl_map()[k]
            == older.spec_ttl_map().insert(kv, tv)[k] by {
            let j = self.index_of(k);
            assert(0 <= j < self.entries@.len() && self.entry_at(j) == k);
            self.lemma_map_at(j);
            if k == kv {
                assert(j == n);
            } else {
                assert(j != n);
                assert(older.entry_at(j) == k);
                older.lemma_map_at(j);
            }
        }
        assert(self.spec_map() =~= older.spec_map().insert(kv, vv));
        assert(self.spec_ttl_map() =~= older.spec_ttl_map().insert(kv, tv));
        self.lemma_fails_same(older);
    }
}

impl View for Store {
    type V = StoreView;

    closed spec fn view(&self) -> StoreView {
        StoreView {
            m: self.spec_map(),
            ttl: self.spec_ttl_map(),
            fails: Set::new(|k: CacheKeyView| self.spec_fails(k)),
        }
    }
}

} // verus!
