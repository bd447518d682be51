//! The per-user memo of materialized query results.
//!
//! At most one value is kept per user key; a stored value carries the
//! query parameter it was computed for, and a lookup under any other
//! parameter misses, so a parameter change forces recomputation.
//! Invalidation is an explicit operation, never a side effect of a
//! lookup. The mutual-exclusion guard around a shared cache is the
//! embedding program's concern; this type captures the cache decisions
//! themselves.

use std::collections::HashMap;
use vstd::prelude::*;

verus! {

broadcast use vstd::std_specs::hash::group_hash_axioms;

/// A cached value together with the query parameter it answers.
#[derive(Debug, Clone)]
pub struct CacheEntry<V> {
    pub params: Option<i64>,
    pub value: V,
}

/// Memoized values keyed by user, one entry per user at most.
#[derive(Debug)]
pub struct PerUserCache<V> {
    pub entries: HashMap<u64, CacheEntry<V>>,
}

impl<V> PerUserCache<V> {
    /// An empty cache.
    pub fn new() -> (r: PerUserCache<V>)
        ensures
            r.entries@ == Map::<u64, CacheEntry<V>>::empty(),
    {
        PerUserCache { entries: HashMap::new() }
    }

    /// The value stored for `user`, provided it was computed for exactly
    /// the requested parameter; a missing entry and a parameter mismatch
    /// both miss.
    pub fn lookup(&self, user: u64, params: Option<i64>) -> (r: Option<&V>)
        ensures
            match r {
                Some(v) => self.entries@.contains_key(user) && self.entries@[user].params
                    == params && *v == self.entries@[user].value,
                None => !self.entries@.contains_key(user) || self.entries@[user].params
                    != params,
            },
    {
        match self.entries.get(&user) {
            Some(entry) => {
                let hit = match (&entry.params, &params) {
                    (Some(a), Some(b)) => *a == *b,
                    (None, None) => true,
                    _ => false,
                };
                if hit {
                    Some(&entry.value)
                } else {
                    None
                }
            },
            None => None,
        }
    }

    /// Stores the value computed for `user` under `params`, replacing
    /// whatever the cache held for that user.
    pub fn publish(&mut self, user: u64, params: Option<i64>, value: V)
        ensures
            final(self).entries@ == old(self).entries@.insert(
                user,
                CacheEntry { params, value },
            ),
    {
        self.entries.insert(user, CacheEntry { params, value });
    }

    /// Drops the entry of `user`, if any.
    pub fn invalidate(&mut self, user: u64)
        ensures
            final(self).entries@ == old(self).entries@.remove(user),
    {
        self.entries.remove(&user);
    }

    /// Number of users with a cached value.
    pub fn len(&self) -> (r: usize)
        ensures
            r == self.entries@.len(),
    {
        self.entries.len()
    }
}

} // verus!
