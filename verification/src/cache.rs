//! The typed cache over the TTL key-value store: values are framed as
//! bytes on write; a payload that no longer decodes is deleted on read and
//! reported as a miss, so corruption never reaches a caller.
use vstd::prelude::*;
use crate::codec::Cacheable;
use crate::store::CacheStats;
use crate::store::KvEntryV;
use crate::store::KvStore;
use crate::store::bump;
use crate::store::key_matches;
use crate::store::kv_keep;
use crate::store::kv_lookup;
use crate::store::live_payload;
use crate::store::spec_hit_rate;

verus! {

/// Why a cache operation could not be carried out. Neither case is fatal
/// to the request being served: reads degrade to misses and writes are
/// skipped.
#[derive(Debug)]
pub enum CacheError {
    /// The backing store could not be reached.
    Unavailable,
    /// The value could not be framed as bytes.
    Serialization,
}

/// A typed cache: byte payloads under string keys, with expiry.
pub struct CacheService {
    store: KvStore,
}

impl CacheService {
    /// The stored entries, in insertion order.
    pub closed spec fn contents(&self) -> Seq<KvEntryV> {
        self.store.contents()
    }

    /// How many reads found a live entry.
    pub closed spec fn hit_count(&self) -> u64 {
        self.store.hit_count()
    }

    /// How many reads found none.
    pub closed spec fn miss_count(&self) -> u64 {
        self.store.miss_count()
    }

    /// An empty cache.
    pub fn new() -> (r: CacheService)
        ensures
            r.contents() == Seq::<KvEntryV>::empty(),
            r.hit_count() == 0,
            r.miss_count() == 0,
    {
        CacheService { store: KvStore::new() }
    }

    /// Reads the value under `key`, decoding the stored payload. A payload
    /// that fails to decode is deleted and reported as absent, so a
    /// corrupted entry can never reach a caller; other keys are untouched.
    pub fn get<T: Cacheable>(&mut self, key: &str, now: u64) -> (r: Option<T>)
        ensures
            forall|k2: Seq<char>|
                k2 != key@ ==> #[trigger] kv_lookup(final(self).contents(), k2) == kv_lookup(
                    old(self).contents(),
                    k2,
                ),
            match live_payload(old(self).contents(), key@, now) {
                Some(p) => match T::decoded(p) {
                    Some(rep) => (r matches Some(v) && v.repr() == rep) && final(self).contents()
                        == old(self).contents(),
                    None => r is None && kv_lookup(final(self).contents(), key@) is None,
                },
                None => r is None && final(self).contents() == old(self).contents(),
            },
            live_payload(old(self).contents(), key@, now) is Some ==> final(self).hit_count()
                == bump(old(self).hit_count()) && final(self).miss_count() == old(
                self,
            ).miss_count(),
            live_payload(old(self).contents(), key@, now) is None ==> final(self).miss_count()
                == bump(old(self).miss_count()) && final(self).hit_count() == old(self).hit_count(),
    {
        let fetched = self.store.get_bytes(key, now);
        match fetched {
            Some(bytes) => {
                let decoded = T::decode(&bytes);
                match decoded {
                    Some(v) => Some(v),
                    None => {
                        self.store.delete(key);
                        None
                    },
                }
            },
            None => None,
        }
    }

    /// Writes `value` under `key`, framed as bytes, to expire
    /// `expiration_secs` after `now`. Other keys are untouched.
    pub fn set<T: Cacheable>(
        &mut self,
        key: &str,
        value: &T,
        expiration_secs: u64,
        now: u64,
    ) -> (r: Result<(), CacheError>)
        ensures
            r is Ok,
            value.bounded(),
            kv_lookup(final(self).contents(), key@) == Some(
                KvEntryV {
                    key: key@,
                    payload: value.encoding(),
                    expires_at: if now + expiration_secs > u64::MAX {
                        u64::MAX
                    } else {
                        (now + expiration_secs) as u64
                    },
                },
            ),
            now < u64::MAX && expiration_secs > 0 ==> live_payload(
                final(self).contents(),
                key@,
                now,
            ) == Some(value.encoding()),
            forall|k2: Seq<char>|
                k2 != key@ ==> #[trigger] kv_lookup(final(self).contents(), k2) == kv_lookup(
                    old(self).contents(),
                    k2,
                ),
            final(self).hit_count() == old(self).hit_count(),
            final(self).miss_count() == old(self).miss_count(),
    {
        let payload = value.encode();
        self.store.set_bytes(key, payload, expiration_secs, now);
        Ok(())
    }

    /// Stores raw bytes under `key`, as any other client of the shared
    /// store may; what does not decode will be healed on read.
    pub fn set_raw(&mut self, key: &str, payload: Vec<u8>, expiration_secs: u64, now: u64)
        ensures
            kv_lookup(final(self).contents(), key@) == Some(
                KvEntryV {
                    key: key@,
                    payload: payload@,
                    expires_at: if now + expiration_secs > u64::MAX {
                        u64::MAX
                    } else {
                        (now + expiration_secs) as u64
                    },
                },
            ),
            forall|k2: Seq<char>|
                k2 != key@ ==> #[trigger] kv_lookup(final(self).contents(), k2) == kv_lookup(
                    old(self).contents(),
                    k2,
                ),
            final(self).hit_count() == old(self).hit_count(),
            final(self).miss_count() == old(self).miss_count(),
    {
        self.store.set_bytes(key, payload, expiration_secs, now);
    }

    /// Removes the entry under `key`, if any; other keys are untouched.
    pub fn delete(&mut self, key: &str) -> (r: Result<(), CacheError>)
        ensures
            r is Ok,
            kv_lookup(final(self).contents(), key@) is None,
            forall|k2: Seq<char>|
                k2 != key@ ==> #[trigger] kv_lookup(final(self).contents(), k2) == kv_lookup(
                    old(self).contents(),
                    k2,
                ),
            final(self).hit_count() == old(self).hit_count(),
            final(self).miss_count() == old(self).miss_count(),
    {
        self.store.delete(key);
        Ok(())
    }

    /// Removes every entry whose key falls under `pattern` and returns how
    /// many were removed; keys outside the pattern are untouched.
    pub fn delete_pattern(&mut self, pattern: &str) -> (r: Result<u64, CacheError>)
        ensures
            final(self).contents() == kv_keep(
                old(self).contents(),
                (|k: Seq<char>| !key_matches(k, pattern@)),
            ),
            r matches Ok(count) && count == old(self).contents().len()
                - final(self).contents().len(),
            forall|k2: Seq<char>|
                key_matches(k2, pattern@) ==> #[trigger] kv_lookup(
                    final(self).contents(),
                    k2,
                ) is None,
            forall|k2: Seq<char>|
                !key_matches(k2, pattern@) ==> #[trigger] kv_lookup(final(self).contents(), k2)
                    == kv_lookup(old(self).contents(), k2),
            final(self).hit_count() == old(self).hit_count(),
            final(self).miss_count() == old(self).miss_count(),
    {
        let count = self.store.delete_pattern(pattern);
        Ok(count)
    }

    /// True when a live entry stands under `key` at `now`.
    pub fn contains_key(&self, key: &str, now: u64) -> (r: bool)
        ensures
            r == (live_payload(self.contents(), key@, now) is Some),
    {
        self.store.contains_key(key, now)
    }

    /// The observed traffic and the hit rate it yields, in whole percent.
    pub fn stats(&self) -> (r: Result<CacheStats, CacheError>)
        ensures
            r matches Ok(s) && s.hits == self.hit_count() && s.misses == self.miss_count()
                && s.hit_rate == spec_hit_rate(self.hit_count(), self.miss_count()),
    {
        Ok(self.store.stats())
    }
}

} // verus!
