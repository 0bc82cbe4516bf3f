//! The TTL key-value store behind the cache: keyed byte payloads with
//! expiry instants, pattern deletion scoped by key prefix, and hit/miss
//! counters. Time enters as an explicit instant so expiry is part of every
//! contract.
use vstd::prelude::*;
use crate::text::chars_of;
use crate::text::str_eq;
use crate::text::starts_with_chars;
use crate::text::has_prefix;

verus! {

/// One stored entry: a key, its payload, and the instant it expires.
pub struct KvEntry {
    pub key: String,
    pub payload: Vec<u8>,
    pub expires_at: u64,
}

/// The mathematical value of a stored entry.
pub ghost struct KvEntryV {
    pub key: Seq<char>,
    pub payload: Seq<u8>,
    pub expires_at: u64,
}

impl View for KvEntry {
    type V = KvEntryV;

    open spec fn view(&self) -> KvEntryV {
        KvEntryV { key: self.key@, payload: self.payload@, expires_at: self.expires_at }
    }
}

/// The first entry under `k`, if any.
pub open spec fn kv_lookup(s: Seq<KvEntryV>, k: Seq<char>) -> Option<KvEntryV>
    decreases s.len(),
{
    if s.len() == 0 {
        None
    } else if s.first().key == k {
        Some(s.first())
    } else {
        kv_lookup(s.drop_first(), k)
    }
}

/// The payload stored under `k` and not yet expired at `now`, if any.
pub open spec fn live_payload(s: Seq<KvEntryV>, k: Seq<char>, now: u64) -> Option<Seq<u8>> {
    match kv_lookup(s, k) {
        Some(e) => if e.expires_at > now {
            Some(e.payload)
        } else {
            None
        },
        None => None,
    }
}

/// Looking up in a sequence with one entry appended.
proof fn lemma_kv_lookup_push(s: Seq<KvEntryV>, e: KvEntryV, k: Seq<char>)
    ensures
        kv_lookup(s.push(e), k) == if kv_lookup(s, k) is Some {
            kv_lookup(s, k)
        } else if e.key == k {
            Some(e)
        } else {
            None::<KvEntryV>
        },
    decreases s.len(),
{
    if s.len() == 0 {
        assert(s.push(e).len() == 1);
        assert(s.push(e).first() == e);
        assert(s.push(e).drop_first() =~= Seq::<KvEntryV>::empty());
        assert(kv_lookup(Seq::<KvEntryV>::empty(), k) is None);
        assert(kv_lookup(s, k) is None);
    } else {
        assert(s.push(e).first() == s.first());
        assert(s.push(e).drop_first() =~= s.drop_first().push(e));
        lemma_kv_lookup_push(s.drop_first(), e, k);
    }
}

/// The entries of `s` whose keys satisfy `pred`, in order.
pub open spec fn kv_keep(s: Seq<KvEntryV>, pred: spec_fn(Seq<char>) -> bool) -> Seq<KvEntryV>
    decreases s.len(),
{
    if s.len() == 0 {
        Seq::empty()
    } else {
        kv_keep(s.drop_last(), pred) + (if pred(s.last().key) {
            seq![s.last()]
        } else {
            Seq::empty()
        })
    }
}

/// Dropping entries by key predicate removes exactly the keys the
/// predicate rejects and leaves every other key's first entry unchanged.
pub proof fn lemma_kv_keep_lookup(s: Seq<KvEntryV>, pred: spec_fn(Seq<char>) -> bool, k: Seq<char>)
    ensures
        kv_lookup(kv_keep(s, pred), k) == if pred(k) {
            kv_lookup(s, k)
        } else {
            None::<KvEntryV>
        },
    decreases s.len(),
{
    if s.len() == 0 {
    } else {
        let t = s.drop_last();
        let e = s.last();
        lemma_kv_keep_lookup(t, pred, k);
        assert(t.push(e) =~= s);
        lemma_kv_lookup_push(t, e, k);
        if pred(e.key) {
            assert(kv_keep(s, pred) =~= kv_keep(t, pred).push(e));
            lemma_kv_lookup_push(kv_keep(t, pred), e, k);
        } else {
            assert(kv_keep(s, pred) =~= kv_keep(t, pred));
        }
    }
}

/// Keeping every entry changes nothing: a deletion whose pattern matches
/// no stored key leaves the store as it was, and so removes zero entries.
pub proof fn lemma_kv_keep_all(s: Seq<KvEntryV>, pred: spec_fn(Seq<char>) -> bool)
    requires
        forall|i: int| 0 <= i < s.len() ==> pred((#[trigger] s[i]).key),
    ensures
        kv_keep(s, pred) == s,
    decreases s.len(),
{
    if s.len() > 0 {
        let t = s.drop_last();
        assert(forall|i: int| 0 <= i < t.len() ==> #[trigger] t[i] == s[i]);
        lemma_kv_keep_all(t, pred);
        assert(kv_keep(s, pred) =~= s);
    }
}

/// True when `k` falls under the deletion pattern `pat`: a pattern ending
/// in '*' names every key with the preceding prefix, any other pattern
/// names exactly itself.
pub open spec fn key_matches(k: Seq<char>, pat: Seq<char>) -> bool {
    if pat.len() > 0 && pat.last() == '*' {
        has_prefix(k, pat.drop_last())
    } else {
        k == pat
    }
}

/// One more observed event, capped at the counter's width.
pub open spec fn bump(x: u64) -> u64 {
    if x == u64::MAX {
        x
    } else {
        (x + 1) as u64
    }
}

/// Cache traffic counters and the hit rate they yield, in whole percent.
pub struct CacheStats {
    pub hits: u64,
    pub misses: u64,
    pub hit_rate: u64,
}

/// The hit rate in whole percent: hits out of all lookups, zero when no
/// traffic was observed.
pub open spec fn spec_hit_rate(hits: u64, misses: u64) -> int {
    if hits + misses == 0 {
        0
    } else {
        (hits * 100) / (hits + misses)
    }
}

/// An in-memory key-value store with per-entry expiry, the shape of store
/// the cache layer consumes.
pub struct KvStore {
    entries: Vec<KvEntry>,
    hits: u64,
    misses: u64,
}

impl KvStore {
    /// The stored entries, in insertion order.
    pub closed spec fn contents(&self) -> Seq<KvEntryV> {
        self.entries@.map_values(|e: KvEntry| e@)
    }

    /// How many lookups found a live entry.
    pub closed spec fn hit_count(&self) -> u64 {
        self.hits
    }

    /// How many lookups found none.
    pub closed spec fn miss_count(&self) -> u64 {
        self.misses
    }

    /// An empty store with zeroed counters.
    pub fn new() -> (r: KvStore)
        ensures
            r.contents() == Seq::<KvEntryV>::empty(),
            r.hit_count() == 0,
            r.miss_count() == 0,
    {
        let r = KvStore { entries: Vec::new(), hits: 0, misses: 0 };
        proof {
            assert(r.contents() =~= Seq::<KvEntryV>::empty());
        }
        r
    }

    /// Fetches the payload under `key` if it is present and not expired at
    /// `now`, counting the lookup as a hit or a miss.
    #[verifier::loop_isolation(false)]
    pub fn get_bytes(&mut self, key: &str, now: u64) -> (r: Option<Vec<u8>>)
        ensures
            final(self).contents() == old(self).contents(),
            match r {
                Some(p) => live_payload(old(self).contents(), key@, now) == Some(p@)
                    && final(self).hit_count() == bump(old(self).hit_count())
                    && final(self).miss_count() == old(self).miss_count(),
                None => live_payload(old(self).contents(), key@, now) is None
                    && final(self).hit_count() == old(self).hit_count()
                    && final(self).miss_count() == bump(old(self).miss_count()),
            },
    {
        let n = self.entries.len();
        let mut i: usize = 0;
        proof {
            assert(self.contents().skip(0) =~= self.contents());
        }
        while i < n
            invariant
                *self == *old(self),
                n == self.entries.len(),
                i <= n,
                kv_lookup(self.contents(), key@) == kv_lookup(
                    self.contents().skip(i as int),
                    key@,
                ),
            decreases n - i,
        {
            if str_eq(self.entries[i].key.as_str(), key) {
                proof {
                    assert(self.contents().skip(i as int).first() == self.contents()[i as int]);
                }
                if self.entries[i].expires_at > now {
                    let p = clone_bytes(&self.entries[i].payload);
                    self.hits = if self.hits == u64::MAX {
                        self.hits
                    } else {
                        self.hits + 1
                    };
                    return Some(p);
                } else {
                    self.misses = if self.misses == u64::MAX {
                        self.misses
                    } else {
                        self.misses + 1
                    };
                    return None;
                }
            }
            i = i + 1;
            proof {
                assert(self.contents().skip(i - 1).drop_first() =~= self.contents().skip(i as int));
                assert(self.contents().skip(i - 1).first() == self.contents()[i - 1]);
            }
        }
        proof {
            assert(self.contents().skip(n as int) =~= Seq::<KvEntryV>::empty());
        }
        self.misses = if self.misses == u64::MAX {
            self.misses
        } else {
            self.misses + 1
        };
        None
    }

    /// Stores `payload` under `key`, to expire `ttl_seconds` after `now`;
    /// an entry already under that key is replaced.
    pub fn set_bytes(&mut self, key: &str, payload: Vec<u8>, ttl_seconds: u64, now: u64)
        ensures
            kv_lookup(final(self).contents(), key@) == Some(
                KvEntryV {
                    key: key@,
                    payload: payload@,
                    expires_at: if now + ttl_seconds > u64::MAX {
                        u64::MAX
                    } else {
                        (now + ttl_seconds) as u64
                    },
                },
            ),
            forall|k2: Seq<char>|
                k2 != key@ ==> #[trigger] kv_lookup(final(self).contents(), k2) == kv_lookup(
                    old(self).contents(),
                    k2,
                ),
            final(self).hit_count() == old(self).hit_count(),
            final(self).miss_count() == old(self).miss_count(),
    {
        remove_key(&mut self.entries, key);
        let expires_at = if now > u64::MAX - ttl_seconds {
            u64::MAX
        } else {
            now + ttl_seconds
        };
        let entry = KvEntry { key: key.to_owned(), payload, expires_at };
        let ghost before_push = self.contents();
        self.entries.push(entry);
        proof {
            assert(self.contents() =~= before_push.push(
                KvEntryV { key: key@, payload: payload@, expires_at },
            ));
            lemma_kv_lookup_push(
                before_push,
                KvEntryV { key: key@, payload: payload@, expires_at },
                key@,
            );
            assert forall|k2: Seq<char>| k2 != key@ implies #[trigger] kv_lookup(
                self.contents(),
                k2,
            ) == kv_lookup(old(self).contents(), k2) by {
                lemma_kv_lookup_push(
                    before_push,
                    KvEntryV { key: key@, payload: payload@, expires_at },
                    k2,
                );
                lemma_kv_keep_lookup(old(self).contents(), |k: Seq<char>| k != key@, k2);
            }
            lemma_kv_keep_lookup(old(self).contents(), |k: Seq<char>| k != key@, key@);
        }
    }

    /// Removes the entry under `key`, if any.
    pub fn delete(&mut self, key: &str)
        ensures
            kv_lookup(final(self).contents(), key@) is None,
            forall|k2: Seq<char>|
                k2 != key@ ==> #[trigger] kv_lookup(final(self).contents(), k2) == kv_lookup(
                    old(self).contents(),
                    k2,
                ),
            final(self).hit_count() == old(self).hit_count(),
            final(self).miss_count() == old(self).miss_count(),
    {
        remove_key(&mut self.entries, key);
        proof {
            lemma_kv_keep_lookup(old(self).contents(), |k: Seq<char>| k != key@, key@);
            assert forall|k2: Seq<char>| k2 != key@ implies #[trigger] kv_lookup(
                self.contents(),
                k2,
            ) == kv_lookup(old(self).contents(), k2) by {
                lemma_kv_keep_lookup(old(self).contents(), |k: Seq<char>| k != key@, k2);
            }
        }
    }

    /// Removes every entry whose key falls under `pattern` and returns how
    /// many were removed.
    #[verifier::loop_isolation(false)]
    pub fn delete_pattern(&mut self, pattern: &str) -> (r: u64)
        ensures
            final(self).contents() == kv_keep(
                old(self).contents(),
                (|k: Seq<char>| !key_matches(k, pattern@)),
            ),
            forall|k2: Seq<char>|
                key_matches(k2, pattern@) ==> #[trigger] kv_lookup(
                    final(self).contents(),
                    k2,
                ) is None,
            forall|k2: Seq<char>|
                !key_matches(k2, pattern@) ==> #[trigger] kv_lookup(final(self).contents(), k2)
                    == kv_lookup(old(self).contents(), k2),
            r == old(self).contents().len() - final(self).contents().len(),
            final(self).hit_count() == old(self).hit_count(),
            final(self).miss_count() == old(self).miss_count(),
    {
        let before = self.entries.len();
        let pat = chars_of(pattern);
        let is_glob = pat.len() > 0 && pat[pat.len() - 1] == '*';
        let mut prefix: Vec<char> = Vec::new();
        if is_glob {
            let mut t: usize = 0;
            while t < pat.len() - 1
                invariant
                    pat.len() >= 1,
                    t <= pat.len() - 1,
                    prefix@ == pat@.take(t as int),
                decreases pat.len() - 1 - t,
            {
                prefix.push(pat[t]);
                t = t + 1;
                proof {
                    assert(pat@.take(t as int) =~= pat@.take(t - 1).push(pat@[t - 1]));
                }
            }
            proof {
                assert(pat@.take(pat@.len() - 1) =~= pat@.drop_last());
            }
        }
        let ghost keep_pred = |k: Seq<char>| !key_matches(k, pattern@);
        let mut kept: Vec<KvEntry> = Vec::new();
        let n = self.entries.len();
        let mut i: usize = 0;
        proof {
            assert(kept@.map_values(|e: KvEntry| e@) =~= kv_keep(
                self.contents().take(0),
                keep_pred,
            ));
        }
        while i < n
            invariant
                n == self.entries.len(),
                i <= n,
                is_glob == (pattern@.len() > 0 && pattern@.last() == '*'),
                is_glob ==> prefix@ == pattern@.drop_last(),
                pat@ == pattern@,
                kept@.map_values(|e: KvEntry| e@) == kv_keep(
                    self.contents().take(i as int),
                    keep_pred,
                ),
            decreases n - i,
        {
            let matched = if is_glob {
                let key_chars = chars_of(self.entries[i].key.as_str());
                starts_with_chars(&key_chars, &prefix)
            } else {
                str_eq(self.entries[i].key.as_str(), pattern)
            };
            proof {
                assert(matched == key_matches(self.contents()[i as int].key, pattern@));
            }
            if !matched {
                kept.push(self.entries[i].clone_entry());
            }
            i = i + 1;
            proof {
                assert(self.contents().take(i as int).drop_last() =~= self.contents().take(i - 1));
                assert(self.contents().take(i as int).last() == self.contents()[i - 1]);
                assert(kept@.map_values(|e: KvEntry| e@) =~= kv_keep(
                    self.contents().take(i as int),
                    keep_pred,
                ));
            }
        }
        proof {
            assert(self.contents().take(n as int) =~= self.contents());
        }
        let after = kept.len();
        self.entries = kept;
        proof {
            lemma_kv_keep_len(old(self).contents(), keep_pred);
            assert forall|k2: Seq<char>| key_matches(k2, pattern@) implies #[trigger] kv_lookup(
                self.contents(),
                k2,
            ) is None by {
                lemma_kv_keep_lookup(old(self).contents(), keep_pred, k2);
            }
            assert forall|k2: Seq<char>| !key_matches(k2, pattern@) implies #[trigger] kv_lookup(
                self.contents(),
                k2,
            ) == kv_lookup(old(self).contents(), k2) by {
                lemma_kv_keep_lookup(old(self).contents(), keep_pred, k2);
            }
        }
        (before - after) as u64
    }

    /// True when a live entry stands under `key` at `now`.
    #[verifier::loop_isolation(false)]
    pub fn contains_key(&self, key: &str, now: u64) -> (r: bool)
        ensures
            r == (live_payload(self.contents(), key@, now) is Some),
    {
        let n = self.entries.len();
        let mut i: usize = 0;
        proof {
            assert(self.contents().skip(0) =~= self.contents());
        }
        while i < n
            invariant
                n == self.entries.len(),
                i <= n,
                kv_lookup(self.contents(), key@) == kv_lookup(
                    self.contents().skip(i as int),
                    key@,
                ),
            decreases n - i,
        {
            if str_eq(self.entries[i].key.as_str(), key) {
                proof {
                    assert(self.contents().skip(i as int).first() == self.contents()[i as int]);
                }
                return self.entries[i].expires_at > now;
            }
            i = i + 1;
            proof {
                assert(self.contents().skip(i - 1).drop_first() =~= self.contents().skip(i as int));
                assert(self.contents().skip(i - 1).first() == self.contents()[i - 1]);
            }
        }
        proof {
            assert(self.contents().skip(n as int) =~= Seq::<KvEntryV>::empty());
        }
        false
    }

    /// The observed traffic and the hit rate it yields.
    pub fn stats(&self) -> (r: CacheStats)
        ensures
            r.hits == self.hit_count(),
            r.misses == self.miss_count(),
            r.hit_rate == spec_hit_rate(self.hit_count(), self.miss_count()),
    {
        let hits = self.hits;
        let misses = self.misses;
        if hits == 0 && misses == 0 {
            return CacheStats { hits, misses, hit_rate: 0 };
        }
        let total: u128 = hits as u128 + misses as u128;
        let rate128: u128 = (hits as u128 * 100) / total;
        proof {
            assert(rate128 <= 100) by (nonlinear_arith)
                requires
                    total > 0,
                    hits <= total,
                    rate128 == (hits * 100) / (total as int),
            ;
        }
        CacheStats { hits, misses, hit_rate: rate128 as u64 }
    }
}

/// Removing by key keeps the other entries; there are never more kept than
/// there were.
proof fn lemma_kv_keep_len(s: Seq<KvEntryV>, pred: spec_fn(Seq<char>) -> bool)
    ensures
        kv_keep(s, pred).len() <= s.len(),
    decreases s.len(),
{
    if s.len() > 0 {
        lemma_kv_keep_len(s.drop_last(), pred);
    }
}

/// Copies a byte vector.
fn clone_bytes(v: &Vec<u8>) -> (r: Vec<u8>)
    ensures
        r@ == v@,
{
    let mut r: Vec<u8> = Vec::new();
    let mut i: usize = 0;
    while i < v.len()
        invariant
            i <= v.len(),
            r@ == v@.take(i as int),
        decreases v.len() - i,
    {
        r.push(v[i]);
        i = i + 1;
        proof {
            assert(v@.take(i as int) =~= v@.take(i - 1).push(v@[i - 1]));
        }
    }
    proof {
        assert(v@.take(v@.len() as int) =~= v@);
    }
    r
}

impl KvEntry {
    /// Copies the entry.
    fn clone_entry(&self) -> (r: KvEntry)
        ensures
            r@ == self@,
    {
        KvEntry {
            key: self.key.clone(),
            payload: clone_bytes(&self.payload),
            expires_at: self.expires_at,
        }
    }
}

/// Removes every entry under `key` from `entries`, keeping the rest in
/// order.
#[verifier::loop_isolation(false)]
fn remove_key(entries: &mut Vec<KvEntry>, key: &str) -> (r: ())
    ensures
        final(entries)@.map_values(|e: KvEntry| e@) == kv_keep(
            old(entries)@.map_values(|e: KvEntry| e@),
            (|k: Seq<char>| k != key@),
        ),
{
    let ghost orig = old(entries)@.map_values(|e: KvEntry| e@);
    let ghost keep_pred = |k: Seq<char>| k != key@;
    let mut kept: Vec<KvEntry> = Vec::new();
    let n = entries.len();
    let mut i: usize = 0;
    proof {
        assert(kept@.map_values(|e: KvEntry| e@) =~= kv_keep(orig.take(0), keep_pred));
    }
    while i < n
        invariant
            n == entries.len(),
            entries@.map_values(|e: KvEntry| e@) == orig,
            i <= n,
            kept@.map_values(|e: KvEntry| e@) == kv_keep(orig.take(i as int), keep_pred),
        decreases n - i,
    {
        if !str_eq(entries[i].key.as_str(), key) {
            kept.push(entries[i].clone_entry());
        }
        i = i + 1;
        proof {
            assert(orig.take(i as int).drop_last() =~= orig.take(i - 1));
            assert(orig.take(i as int).last() == orig[i - 1]);
            assert(kept@.map_values(|e: KvEntry| e@) =~= kv_keep(orig.take(i as int), keep_pred));
        }
    }
    proof {
        assert(orig.take(n as int) =~= orig);
    }
    *entries = kept;
}

} // verus!
