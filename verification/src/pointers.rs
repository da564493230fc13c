//! Random chunk pointers, unique within one fill.
//!
//! Each chunk of one fill gets a 64-bit signed pointer drawn at random; a
//! draw that collides with an earlier pointer of the same fill is retried.
//! Uniqueness is only per fill: nothing is persisted across fills.

use vstd::prelude::*;

verus! {

/// Relies on `rand::random`: a fresh value drawn from the thread-local
/// generator.  Nothing can be promised of the value.
pub assume_specification<T>[ rand::random::<T> ]() -> (r: T)
    where
        rand::distributions::Standard: rand::distributions::Distribution<T>,
;

/// How often one pointer draw is retried before the enclosing fill gives
/// up; collisions in a 64-bit space make even one retry unlikely.
pub const MAX_DRAW_ATTEMPTS: usize = 64;

fn contains_i64(seen: &Vec<i64>, p: i64) -> (r: bool)
    ensures
        r == seen@.contains(p),
{
    let mut i: usize = 0;
    while i < seen.len()
        invariant
            i <= seen@.len(),
            forall|j: int| 0 <= j < i ==> seen@[j] != p,
        decreases seen@.len() - i,
    {
        if seen[i] == p {
            assert(seen@.contains(p));
            return true;
        }
        i = i + 1;
    }
    assert(!seen@.contains(p));
    false
}

/// Source of random pointers, distinct from each other within one fill.
pub struct PointersIter {
    pub seen: Vec<i64>,
}

impl PointersIter {
    pub fn new() -> (r: Self)
        ensures
            r.seen@ == Seq::<i64>::empty(),
    {
        let r = PointersIter { seen: Vec::new() };
        assert(r.seen@ =~= Seq::<i64>::empty());
        r
    }

    /// Draw the next pointer: random, and distinct from every pointer this
    /// fill has drawn so far.  `None` only when the bounded number of
    /// retries was exhausted by collisions; the caller then aborts its fill.
    pub fn next(&mut self) -> (r: Option<i64>)
        ensures
            match r {
                Some(p) => !old(self).seen@.contains(p) && final(self).seen@ == old(
                    self,
                ).seen@.push(p),
                None => *final(self) == *old(self),
            },
    {
        let mut attempts: usize = 0;
        while attempts < MAX_DRAW_ATTEMPTS
            invariant
                *self == *old(self),
            decreases MAX_DRAW_ATTEMPTS - attempts,
        {
            let p: i64 = rand::random();
            if !contains_i64(&self.seen, p) {
                self.seen.push(p);
                return Some(p);
            }
            attempts = attempts + 1;
        }
        None
    }
}

} // verus!
