//! A write-through / read-aside remote cache for versioned file-history
//! records, in front of an authoritative metadata store.
//!
//! The cache is backed by a key-value store with a hard per-entry size limit.
//! Point lookups cache one record per key; ordered history lists whose
//! encoded size exceeds the limit are split into raw byte chunks stored under
//! randomly chosen pointer keys, with the root entry holding the ordered
//! pointer list.  Every failure on the read path degrades to "no cached
//! value"; the cache is never a source of truth.

use vstd::prelude::*;

pub mod cache;
pub mod codec;
pub mod keys;
pub mod store;
pub mod pointers;
pub mod record;
pub mod render;
pub mod ttl;

verus! {

/// Hard upper bound on the byte length of one stored value.
pub const MEMCACHE_VALUE_MAX_SIZE: usize = 1000000;

} // verus!
