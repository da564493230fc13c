//! Time-to-live policy.
//!
//! Root entries get a base duration plus a jitter drawn uniformly below a
//! fixed width, so a bulk populate does not evict all at once.  Chunk
//! entries get the base plus the full jitter width — the largest possible
//! root duration — so within one fill a live root can never outlive its own
//! chunks by this policy.

use vstd::prelude::*;

verus! {

/// Base time-to-live of a cache entry, in seconds.
pub const TTL_SEC: u64 = 8 * 60 * 60;

/// Width of the random jitter added to root entries, in seconds.
pub const TTL_SEC_RAND: u64 = 30 * 60;

/// The root time-to-live produced by a given jitter draw.
pub open spec fn spec_root_ttl(draw: u64) -> int {
    TTL_SEC + draw % TTL_SEC_RAND
}

/// The fixed time-to-live of every chunk entry.
pub open spec fn spec_chunk_ttl() -> int {
    TTL_SEC + TTL_SEC_RAND
}

/// Jittered root time-to-live from a raw random draw.
pub fn root_ttl_from_draw(draw: u64) -> (r: u64)
    ensures
        r == spec_root_ttl(draw),
        TTL_SEC <= r < TTL_SEC + TTL_SEC_RAND,
        r <= spec_chunk_ttl(),
{
    TTL_SEC + draw % TTL_SEC_RAND
}

/// Fixed, maximal chunk time-to-live.
pub fn chunk_ttl() -> (r: u64)
    ensures
        r == spec_chunk_ttl(),
{
    TTL_SEC + TTL_SEC_RAND
}

/// For every jitter draw, the fixed chunk time-to-live is at least the
/// jittered root time-to-live.
pub proof fn lemma_chunk_ttl_dominates(draw: u64)
    ensures
        spec_root_ttl(draw) <= spec_chunk_ttl(),
{
    assert(draw % TTL_SEC_RAND < TTL_SEC_RAND);
}

} // verus!
