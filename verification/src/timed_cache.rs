use vstd::prelude::*;

use crate::keyed::KeyedList;

verus! {

/// How long ago `stored_at` was at `now`, in milliseconds; a clock reading
/// before the store counts as no time at all.
pub open spec fn elapsed(stored_at: u64, now: u64) -> int {
    if now >= stored_at {
        now - stored_at
    } else {
        0
    }
}

/// What a cache holding `stored` (each key's store time and value) with
/// time-to-live `ttl` returns for `key` at `now`: the value while it is
/// younger than `ttl`, nothing once it has expired or was never stored.
pub open spec fn cache_lookup<V>(stored: Map<Seq<char>, (u64, V)>, ttl: u64, key: Seq<char>, now: u64) -> Option<
    V,
> {
    if stored.contains_key(key) && elapsed(stored[key].0, now) < ttl {
        Some(stored[key].1)
    } else {
        None
    }
}

/// A string-keyed cache whose entries expire a fixed time after they were
/// stored. Times are milliseconds on a clock the caller reads.
pub struct TimedCache<V> {
    ttl_ms: u64,
    stored: KeyedList<(u64, V)>,
}

impl<V> TimedCache<V> {
    /// The time-to-live of every entry.
    pub closed spec fn ttl(&self) -> u64 {
        self.ttl_ms
    }

    /// Each stored key with the time it was stored at and its value.
    pub closed spec fn stored(&self) -> Map<Seq<char>, (u64, V)> {
        self.stored@
    }

    /// An empty cache whose entries live `ttl_ms` milliseconds.
    pub fn new(ttl_ms: u64) -> (cache: Self)
        ensures
            cache.ttl() == ttl_ms,
            cache.stored() == Map::<Seq<char>, (u64, V)>::empty(),
    {
        TimedCache { ttl_ms, stored: KeyedList::new() }
    }

    /// The value cached under `key` if it has not expired at `now_ms`.
    pub fn get(&self, key: &str, now_ms: u64) -> (value: Option<&V>)
        ensures
            value is Some == cache_lookup(self.stored(), self.ttl(), key@, now_ms) is Some,
            self.stored().contains_key(key@) && self.stored()[key@].0 <= now_ms ==> (value is Some
                <==> now_ms - self.stored()[key@].0 < self.ttl()),
            !self.stored().contains_key(key@) ==> value is None,
            value matches Some(v) ==> *v == self.stored()[key@].1,
            value matches Some(v) ==> cache_lookup(self.stored(), self.ttl(), key@, now_ms) == Some(
                *v,
            ),
    {
        match self.stored.get(key) {
            Some(entry) => {
                let stored_at = entry.0;
                let age: u64 = if now_ms >= stored_at {
                    now_ms - stored_at
                } else {
                    0
                };
                if age < self.ttl_ms {
                    Some(&entry.1)
                } else {
                    None
                }
            },
            None => None,
        }
    }

    /// Caches `value` under `key` as stored at `now_ms`, replacing what was there.
    pub fn insert(&mut self, key: String, value: V, now_ms: u64)
        ensures
            final(self).ttl() == old(self).ttl(),
            final(self).stored() == old(self).stored().insert(key@, (now_ms, value)),
    {
        self.stored.insert(key, (now_ms, value));
    }
}

/// An entry stored at `t` and read at `now >= t` is returned exactly while
/// `now - t` is below the time-to-live, and then it is the value stored.
pub proof fn lemma_lookup_fresh_iff<V>(
    stored: Map<Seq<char>, (u64, V)>,
    ttl: u64,
    key: Seq<char>,
    now: u64,
)
    requires
        stored.contains_key(key),
        stored[key].0 <= now,
    ensures
        cache_lookup(stored, ttl, key, now) is Some <==> now - stored[key].0 < ttl,
        now - stored[key].0 < ttl ==> cache_lookup(stored, ttl, key, now) == Some(stored[key].1),
{
}

/// A value read back within the time-to-live of its store is the value stored.
pub proof fn lemma_read_after_write<V>(
    stored: Map<Seq<char>, (u64, V)>,
    ttl: u64,
    key: Seq<char>,
    value: V,
    stored_at: u64,
    now: u64,
)
    requires
        elapsed(stored_at, now) < ttl,
    ensures
        cache_lookup(stored.insert(key, (stored_at, value)), ttl, key, now) == Some(value),
{
}

/// Once its time-to-live has passed, a stored value is no longer returned.
pub proof fn lemma_expired_is_miss<V>(
    stored: Map<Seq<char>, (u64, V)>,
    ttl: u64,
    key: Seq<char>,
    value: V,
    stored_at: u64,
    now: u64,
)
    requires
        elapsed(stored_at, now) >= ttl,
    ensures
        cache_lookup(stored.insert(key, (stored_at, value)), ttl, key, now) is None,
{
}

/// Storing under one key leaves what every other key returns unchanged.
pub proof fn lemma_write_leaves_other_keys<V>(
    stored: Map<Seq<char>, (u64, V)>,
    ttl: u64,
    key: Seq<char>,
    value: V,
    stored_at: u64,
    other: Seq<char>,
    now: u64,
)
    requires
        other != key,
    ensures
        cache_lookup(stored.insert(key, (stored_at, value)), ttl, other, now) == cache_lookup(
            stored,
            ttl,
            other,
            now,
        ),
{
}

} // verus!
