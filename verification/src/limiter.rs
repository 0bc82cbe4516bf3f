//! Sliding-window admission control per client identity: each identity
//! keeps the instants of its admitted requests inside the window; stale
//! instants are pruned on access and idle identities are swept out by a
//! periodic cleanup.
use vstd::prelude::*;
use crate::text::str_eq;

verus! {

/// The request history of one identity.
pub struct IdentityHistory {
    pub key: String,
    pub times: Vec<u64>,
}

/// The mathematical value of one identity's history.
pub ghost struct IdentityHistoryV {
    pub key: Seq<char>,
    pub times: Seq<u64>,
}

impl View for IdentityHistory {
    type V = IdentityHistoryV;

    open spec fn view(&self) -> IdentityHistoryV {
        IdentityHistoryV { key: self.key@, times: self.times@ }
    }
}

/// The first history under `k`, if any.
pub open spec fn rl_lookup(s: Seq<IdentityHistoryV>, k: Seq<char>) -> Option<Seq<u64>>
    decreases s.len(),
{
    if s.len() == 0 {
        None
    } else if s.first().key == k {
        Some(s.first().times)
    } else {
        rl_lookup(s.drop_first(), k)
    }
}

/// The instants of `h` still inside the window ending at `now`, in order.
pub open spec fn prune_spec(h: Seq<u64>, now: u64, window: u64) -> Seq<u64>
    decreases h.len(),
{
    if h.len() == 0 {
        Seq::empty()
    } else {
        prune_spec(h.drop_last(), now, window) + (if h.last() + window > now {
            seq![h.last()]
        } else {
            Seq::empty()
        })
    }
}

/// Looking up in a history list with one entry appended.
proof fn lemma_rl_lookup_push(s: Seq<IdentityHistoryV>, e: IdentityHistoryV, k: Seq<char>)
    ensures
        rl_lookup(s.push(e), k) == if rl_lookup(s, k) is Some {
            rl_lookup(s, k)
        } else if e.key == k {
            Some(e.times)
        } else {
            None::<Seq<u64>>
        },
    decreases s.len(),
{
    if s.len() == 0 {
        assert(s.push(e).first() == e);
        assert(s.push(e).drop_first() =~= Seq::<IdentityHistoryV>::empty());
        assert(rl_lookup(Seq::<IdentityHistoryV>::empty(), k) is None);
        assert(rl_lookup(s, k) is None);
    } else {
        assert(s.push(e).first() == s.first());
        assert(s.push(e).drop_first() =~= s.drop_first().push(e));
        lemma_rl_lookup_push(s.drop_first(), e, k);
    }
}

/// A key is absent exactly when no entry carries it.
proof fn lemma_rl_lookup_absent(s: Seq<IdentityHistoryV>, k: Seq<char>)
    ensures
        rl_lookup(s, k) is None <==> (forall|i: int| 0 <= i < s.len() ==> (#[trigger] s[i]).key
            != k),
    decreases s.len(),
{
    if s.len() > 0 {
        lemma_rl_lookup_absent(s.drop_first(), k);
        assert(forall|i: int|
            0 <= i < s.drop_first().len() ==> #[trigger] s.drop_first()[i] == s[i + 1]);
        if s.first().key != k && rl_lookup(s.drop_first(), k) is None {
            assert forall|i: int| 0 <= i < s.len() implies (#[trigger] s[i]).key != k by {
                if i > 0 {
                    assert(s.drop_first()[i - 1] == s[i]);
                }
            }
        }
    }
}

/// The entries of `s` whose keys are not `k`, in order.
pub open spec fn rl_remove(s: Seq<IdentityHistoryV>, k: Seq<char>) -> Seq<IdentityHistoryV>
    decreases s.len(),
{
    if s.len() == 0 {
        Seq::empty()
    } else {
        rl_remove(s.drop_last(), k) + (if s.last().key != k {
            seq![s.last()]
        } else {
            Seq::empty()
        })
    }
}

/// Removing a key leaves every other key's first history unchanged.
proof fn lemma_rl_remove_lookup(s: Seq<IdentityHistoryV>, k: Seq<char>, k2: Seq<char>)
    ensures
        rl_lookup(rl_remove(s, k), k2) == if k2 == k {
            None::<Seq<u64>>
        } else {
            rl_lookup(s, k2)
        },
    decreases s.len(),
{
    if s.len() > 0 {
        let t = s.drop_last();
        let e = s.last();
        lemma_rl_remove_lookup(t, k, k2);
        assert(t.push(e) =~= s);
        lemma_rl_lookup_push(t, e, k2);
        if e.key != k {
            assert(rl_remove(s, k) =~= rl_remove(t, k).push(e));
            lemma_rl_lookup_push(rl_remove(t, k), e, k2);
        } else {
            assert(rl_remove(s, k) =~= rl_remove(t, k));
        }
    }
}

/// The histories of `s` pruned to the long window ending at `now`, the
/// identities left empty dropped.
pub open spec fn sweep_spec(s: Seq<IdentityHistoryV>, now: u64, long_window: u64) -> Seq<
    IdentityHistoryV,
>
    decreases s.len(),
{
    if s.len() == 0 {
        Seq::empty()
    } else {
        sweep_spec(s.drop_last(), now, long_window) + ({
            let p = prune_spec(s.last().times, now, long_window);
            if p.len() > 0 {
                seq![IdentityHistoryV { key: s.last().key, times: p }]
            } else {
                Seq::empty()
            }
        })
    }
}

/// No two entries carry the same key.
pub open spec fn distinct_keys(s: Seq<IdentityHistoryV>) -> bool {
    forall|i: int, j: int| 0 <= i < j < s.len() ==> (#[trigger] s[i]).key != (#[trigger] s[j]).key
}

/// Every entry the sweep keeps was already there, pruned.
proof fn lemma_sweep_member(s: Seq<IdentityHistoryV>, now: u64, lw: u64, t: int)
    requires
        0 <= t < sweep_spec(s, now, lw).len(),
    ensures
        exists|i: int|
            0 <= i < s.len() && (#[trigger] s[i]).key == sweep_spec(s, now, lw)[t].key,
    decreases s.len(),
{
    if s.len() > 0 {
        let prev = sweep_spec(s.drop_last(), now, lw);
        if t < prev.len() {
            lemma_sweep_member(s.drop_last(), now, lw, t);
            let i = choose|i: int|
                0 <= i < s.drop_last().len() && (#[trigger] s.drop_last()[i]).key == prev[t].key;
            assert(s[i].key == sweep_spec(s, now, lw)[t].key);
        } else {
            assert(s[s.len() - 1].key == sweep_spec(s, now, lw)[t].key);
        }
    }
}

/// The sweep keeps distinct keys distinct.
proof fn lemma_sweep_distinct(s: Seq<IdentityHistoryV>, now: u64, lw: u64)
    requires
        distinct_keys(s),
    ensures
        distinct_keys(sweep_spec(s, now, lw)),
    decreases s.len(),
{
    if s.len() > 0 {
        let t = s.drop_last();
        assert(distinct_keys(t)) by {
            assert(forall|i: int, j: int|
                0 <= i < j < t.len() ==> (#[trigger] t[i]).key != (#[trigger] t[j]).key);
        }
        lemma_sweep_distinct(t, now, lw);
        let swept = sweep_spec(s, now, lw);
        let prev = sweep_spec(t, now, lw);
        assert forall|i: int, j: int| 0 <= i < j < swept.len() implies (#[trigger] swept[i]).key
            != (#[trigger] swept[j]).key by {
            if j < prev.len() {
            } else {
                // The last entry's key differs from every kept key, since
                // every kept key comes from an earlier entry.
                if i < prev.len() {
                    lemma_sweep_member(t, now, lw, i);
                }
            }
        }
    }
}

/// Sweeping prunes each identity's history and drops the identities left
/// empty.
proof fn lemma_sweep_lookup(s: Seq<IdentityHistoryV>, now: u64, lw: u64, k: Seq<char>)
    requires
        distinct_keys(s),
    ensures
        rl_lookup(sweep_spec(s, now, lw), k) == match rl_lookup(s, k) {
            Some(h) => {
                let p = prune_spec(h, now, lw);
                if p.len() > 0 {
                    Some(p)
                } else {
                    None::<Seq<u64>>
                }
            },
            None => None::<Seq<u64>>,
        },
    decreases s.len(),
{
    if s.len() > 0 {
        let t = s.drop_last();
        let e = s.last();
        assert(distinct_keys(t)) by {
            assert(forall|i: int, j: int|
                0 <= i < j < t.len() ==> (#[trigger] t[i]).key != (#[trigger] t[j]).key);
        }
        lemma_sweep_lookup(t, now, lw, k);
        assert(t.push(e) =~= s);
        lemma_rl_lookup_push(t, e, k);
        if k == e.key {
            // The last entry's key is on no earlier entry.
            assert(rl_lookup(t, k) is None) by {
                lemma_rl_lookup_absent(t, k);
                assert(forall|i: int| 0 <= i < t.len() ==> (#[trigger] t[i]).key != k);
            }
            assert(rl_lookup(sweep_spec(t, now, lw), k) is None);
        }
        let p = prune_spec(e.times, now, lw);
        if p.len() > 0 {
            assert(sweep_spec(s, now, lw) =~= sweep_spec(t, now, lw).push(
                IdentityHistoryV { key: e.key, times: p },
            ));
            lemma_rl_lookup_push(
                sweep_spec(t, now, lw),
                IdentityHistoryV { key: e.key, times: p },
                k,
            );
        } else {
            assert(sweep_spec(s, now, lw) =~= sweep_spec(t, now, lw));
        }
    }
}


/// Once every recorded instant is a full window old, pruning leaves
/// nothing.
pub proof fn lemma_window_slides(h: Seq<u64>, now: u64, window: u64)
    requires
        forall|i: int| 0 <= i < h.len() ==> #[trigger] h[i] + window <= now,
    ensures
        prune_spec(h, now, window).len() == 0,
    decreases h.len(),
{
    if h.len() > 0 {
        assert(forall|i: int| 0 <= i < h.drop_last().len() ==> #[trigger] h.drop_last()[i] == h[i]);
        lemma_window_slides(h.drop_last(), now, window);
    }
}

/// The window slides: however often an identity was rejected, once its
/// recorded instants are all a full window older than the clock, the
/// pruned history `check` compares against is empty, so its next request
/// is admitted whenever the quota admits any request at all.
pub proof fn lemma_window_readmission(limiter: RateLimiter, key: Seq<char>, now: u64)
    requires
        limiter.max() >= 1,
        match limiter.history_of(key) {
            Some(h) => forall|i: int| 0 <= i < h.len() ==> #[trigger] h[i] + limiter.window()
                <= now,
            None => true,
        },
    ensures
        prune_spec(
            match limiter.history_of(key) {
                Some(h) => h,
                None => Seq::empty(),
            },
            now,
            limiter.window(),
        ).len() < limiter.max(),
{
    match limiter.history_of(key) {
        Some(h) => {
            lemma_window_slides(h, now, limiter.window());
        },
        None => {
            lemma_window_slides(Seq::empty(), now, limiter.window());
        },
    }
}

/// The long window a sweep prunes to: twice the admission window, capped
/// at the counter's width.
pub open spec fn long_window(window_secs: u64) -> u64 {
    if window_secs > u64::MAX / 2 {
        u64::MAX
    } else {
        (2 * window_secs) as u64
    }
}

/// A sliding-window rate limiter: per identity, the instants of admitted
/// requests inside the window.
pub struct RateLimiter {
    requests: Vec<IdentityHistory>,
    max_requests: usize,
    window_secs: u64,
}

impl RateLimiter {
    /// The recorded histories, one per identity.
    pub closed spec fn histories(&self) -> Seq<IdentityHistoryV> {
        self.requests@.map_values(|e: IdentityHistory| e@)
    }

    /// The most requests the window admits.
    pub closed spec fn max(&self) -> usize {
        self.max_requests
    }

    /// The admission window, in seconds.
    pub closed spec fn window(&self) -> u64 {
        self.window_secs
    }

    /// Each identity is recorded once.
    pub closed spec fn wf(&self) -> bool {
        distinct_keys(self.histories())
    }

    /// The history recorded for `k`, if any.
    pub open spec fn history_of(&self, k: Seq<char>) -> Option<Seq<u64>> {
        rl_lookup(self.histories(), k)
    }

    /// A limiter admitting at most `max_requests` per identity within any
    /// trailing `window_secs` seconds.
    pub fn new(max_requests: usize, window_secs: u64) -> (r: RateLimiter)
        ensures
            r.wf(),
            r.max() == max_requests,
            r.window() == window_secs,
            forall|k: Seq<char>| #[trigger] r.history_of(k) is None,
    {
        let r = RateLimiter { requests: Vec::new(), max_requests, window_secs };
        proof {
            assert(r.histories() =~= Seq::<IdentityHistoryV>::empty());
            assert forall|k: Seq<char>| #[trigger] r.history_of(k) is None by {
                assert(rl_lookup(Seq::<IdentityHistoryV>::empty(), k) is None);
            }
        }
        r
    }

    /// Tests and records one request from `key` at `now`: the identity's
    /// history is first pruned to the window; if fewer than the admitted
    /// maximum remain, `now` is appended and the request is admitted,
    /// else it is rejected and nothing is appended.
    #[verifier::loop_isolation(false)]
    pub fn check(&mut self, key: &str, now: u64) -> (r: bool)
        requires
            old(self).wf(),
        ensures
            final(self).wf(),
            final(self).max() == old(self).max(),
            final(self).window() == old(self).window(),
            ({
                let pruned = prune_spec(
                    match old(self).history_of(key@) {
                        Some(h) => h,
                        None => Seq::empty(),
                    },
                    now,
                    old(self).window(),
                );
                r == (pruned.len() < old(self).max()) && final(self).history_of(key@) == Some(
                    if r {
                        pruned.push(now)
                    } else {
                        pruned
                    },
                ) && (forall|k2: Seq<char>|
                    k2 != key@ ==> #[trigger] final(self).history_of(k2) == old(self).history_of(
                        k2,
                    ))
            }),
    {
        let ghost orig = self.histories();
        // Collect the identity's current history and drop its entry.
        let mut old_times: Vec<u64> = Vec::new();
        let mut found = false;
        let mut kept: Vec<IdentityHistory> = Vec::new();
        let n = self.requests.len();
        let mut i: usize = 0;
        proof {
            assert(kept@.map_values(|e: IdentityHistory| e@) =~= rl_remove(orig.take(0), key@));
            assert(orig.skip(0) =~= orig);
        }
        while i < n
            invariant
                n == self.requests.len(),
                self.histories() == orig,
                i <= n,
                kept@.map_values(|e: IdentityHistory| e@) == rl_remove(orig.take(i as int), key@),
                !found ==> rl_lookup(orig, key@) == rl_lookup(orig.skip(i as int), key@)
                    && old_times@ == Seq::<u64>::empty(),
                found ==> rl_lookup(orig, key@) == Some(old_times@),
            decreases n - i,
        {
            let is_key = str_eq(self.requests[i].key.as_str(), key);
            if is_key {
                if !found {
                    proof {
                        assert(orig.skip(i as int).first() == orig[i as int]);
                    }
                    old_times = clone_times(&self.requests[i].times);
                    found = true;
                }
            } else {
                kept.push(clone_history(&self.requests[i]));
            }
            i = i + 1;
            proof {
                assert(orig.take(i as int).drop_last() =~= orig.take(i - 1));
                assert(orig.take(i as int).last() == orig[i - 1]);
                assert(kept@.map_values(|e: IdentityHistory| e@) =~= rl_remove(
                    orig.take(i as int),
                    key@,
                ));
                assert(orig.skip(i - 1).drop_first() =~= orig.skip(i as int));
                assert(orig.skip(i - 1).first() == orig[i - 1]);
            }
        }
        proof {
            assert(orig.take(n as int) =~= orig);
            if !found {
                assert(orig.skip(n as int) =~= Seq::<IdentityHistoryV>::empty());
                assert(rl_lookup(Seq::<IdentityHistoryV>::empty(), key@) is None);
            }
        }
        let window = self.window_secs;
        let maxr = self.max_requests;
        let pruned = prune_times(&old_times, now, window);
        let granted = pruned.len() < maxr;
        let mut new_times = pruned;
        if granted {
            new_times.push(now);
        }
        let entry = IdentityHistory { key: key.to_owned(), times: new_times };
        let ghost removed = kept@.map_values(|e: IdentityHistory| e@);
        let ghost entry_v = entry@;
        kept.push(entry);
        self.requests = kept;
        proof {
            assert(self.histories() =~= removed.push(entry_v));
            lemma_rl_lookup_push(removed, entry_v, key@);
            lemma_rl_remove_lookup(orig, key@, key@);
            assert forall|k2: Seq<char>| k2 != key@ implies #[trigger] self.history_of(k2)
                == rl_lookup(orig, k2) by {
                lemma_rl_lookup_push(removed, entry_v, k2);
                lemma_rl_remove_lookup(orig, key@, k2);
            }
            lemma_remove_distinct(orig, key@);
            assert forall|t: int| 0 <= t < removed.len() implies (#[trigger] removed[t]).key
                != key@ by {
                lemma_remove_member(orig, key@, t);
            }
            lemma_push_distinct(removed, entry_v);
        }
        granted
    }

    /// Sweeps out stale history: each identity's instants are pruned to
    /// twice the window, and identities left with none are removed.
    pub fn cleanup_old_entries(&mut self, now: u64)
        requires
            old(self).wf(),
        ensures
            final(self).wf(),
            final(self).max() == old(self).max(),
            final(self).window() == old(self).window(),
            forall|k: Seq<char>|
                #[trigger] final(self).history_of(k) == match old(self).history_of(k) {
                    Some(h) => {
                        let p = prune_spec(h, now, long_window(old(self).window()));
                        if p.len() > 0 {
                            Some(p)
                        } else {
                            None::<Seq<u64>>
                        }
                    },
                    None => None::<Seq<u64>>,
                },
    {
        let ghost orig = self.histories();
        let lw: u64 = if self.window_secs > u64::MAX / 2 {
            u64::MAX
        } else {
            2 * self.window_secs
        };
        let mut kept: Vec<IdentityHistory> = Vec::new();
        let n = self.requests.len();
        let mut i: usize = 0;
        proof {
            assert(kept@.map_values(|e: IdentityHistory| e@) =~= sweep_spec(
                orig.take(0),
                now,
                lw,
            ));
        }
        while i < n
            invariant
                n == self.requests.len(),
                self.histories() == orig,
                lw == long_window(old(self).window()),
                self.window_secs == old(self).window(),
                self.max_requests == old(self).max(),
                i <= n,
                kept@.map_values(|e: IdentityHistory| e@) == sweep_spec(
                    orig.take(i as int),
                    now,
                    lw,
                ),
            decreases n - i,
        {
            let p = prune_times(&self.requests[i].times, now, lw);
            if p.len() > 0 {
                kept.push(IdentityHistory { key: self.requests[i].key.clone(), times: p });
            }
            i = i + 1;
            proof {
                assert(orig.take(i as int).drop_last() =~= orig.take(i - 1));
                assert(orig.take(i as int).last() == orig[i - 1]);
                assert(kept@.map_values(|e: IdentityHistory| e@) =~= sweep_spec(
                    orig.take(i as int),
                    now,
                    lw,
                ));
            }
        }
        proof {
            assert(orig.take(n as int) =~= orig);
        }
        self.requests = kept;
        proof {
            lemma_sweep_distinct(orig, now, lw);
            assert forall|k: Seq<char>| #[trigger] final(self).history_of(k) == (match rl_lookup(
                orig,
                k,
            ) {
                Some(h) => {
                    let p = prune_spec(h, now, lw);
                    if p.len() > 0 {
                        Some(p)
                    } else {
                        None::<Seq<u64>>
                    }
                },
                None => None::<Seq<u64>>,
            }) by {
                lemma_sweep_lookup(orig, now, lw, k);
            }
        }
    }
}

/// Membership in a removal: every kept entry's key differs from the
/// removed key.
proof fn lemma_remove_member(s: Seq<IdentityHistoryV>, k: Seq<char>, t: int)
    requires
        0 <= t < rl_remove(s, k).len(),
    ensures
        rl_remove(s, k)[t].key != k,
        exists|i: int| 0 <= i < s.len() && #[trigger] s[i] == rl_remove(s, k)[t],
    decreases s.len(),
{
    if s.len() > 0 {
        let prev = rl_remove(s.drop_last(), k);
        if t < prev.len() {
            lemma_remove_member(s.drop_last(), k, t);
            let i = choose|i: int|
                0 <= i < s.drop_last().len() && #[trigger] s.drop_last()[i] == prev[t];
            assert(s[i] == rl_remove(s, k)[t]);
        } else {
            assert(s[s.len() - 1] == rl_remove(s, k)[t]);
        }
    }
}

/// Removal keeps distinct keys distinct.
proof fn lemma_remove_distinct(s: Seq<IdentityHistoryV>, k: Seq<char>)
    requires
        distinct_keys(s),
    ensures
        distinct_keys(rl_remove(s, k)),
{
    let r = rl_remove(s, k);
    assert forall|i: int, j: int| 0 <= i < j < r.len() implies (#[trigger] r[i]).key != (
    #[trigger] r[j]).key by {
        lemma_remove_member(s, k, i);
        lemma_remove_member(s, k, j);
        let a = choose|a: int| 0 <= a < s.len() && #[trigger] s[a] == r[i];
        let b = choose|b: int| 0 <= b < s.len() && #[trigger] s[b] == r[j];
        if a == b {
            lemma_remove_distinct_same_index(s, k, i, j, a);
        }
    }
}

/// Two distinct positions of a removal cannot come from one source entry
/// unless their keys differ anyway; holds because a removal never
/// duplicates an entry of a distinct-keyed source.
proof fn lemma_remove_distinct_same_index(
    s: Seq<IdentityHistoryV>,
    k: Seq<char>,
    i: int,
    j: int,
    a: int,
)
    requires
        distinct_keys(s),
        0 <= i < j < rl_remove(s, k).len(),
        0 <= a < s.len(),
        s[a] == rl_remove(s, k)[i],
        s[a] == rl_remove(s, k)[j],
    ensures
        rl_remove(s, k)[i].key != rl_remove(s, k)[j].key,
{
    lemma_remove_no_dup(s, k, i, j);
}

/// In a removal from a distinct-keyed source, entries at two positions
/// have different keys.
proof fn lemma_remove_no_dup(s: Seq<IdentityHistoryV>, k: Seq<char>, i: int, j: int)
    requires
        distinct_keys(s),
        0 <= i < j < rl_remove(s, k).len(),
    ensures
        rl_remove(s, k)[i].key != rl_remove(s, k)[j].key,
    decreases s.len(),
{
    if s.len() > 0 {
        let t = s.drop_last();
        let e = s.last();
        assert(distinct_keys(t)) by {
            assert(forall|x: int, y: int|
                0 <= x < y < t.len() ==> (#[trigger] t[x]).key != (#[trigger] t[y]).key);
        }
        let prev = rl_remove(t, k);
        if j < prev.len() {
            lemma_remove_no_dup(t, k, i, j);
        } else {
            // rl_remove(s,k)[j] is the last source entry; position i is an
            // earlier source entry, and the source keys are distinct.
            assert(e.key != k);
            lemma_remove_member(t, k, i);
            let a = choose|a: int| 0 <= a < t.len() && #[trigger] t[a] == prev[i];
            assert(s[a] == prev[i]);
            assert(s[a].key != e.key);
        }
    }
}

/// Appending an entry with a fresh key keeps keys distinct.
proof fn lemma_push_distinct(s: Seq<IdentityHistoryV>, e: IdentityHistoryV)
    requires
        distinct_keys(s),
        forall|i: int| 0 <= i < s.len() ==> (#[trigger] s[i]).key != e.key,
    ensures
        distinct_keys(s.push(e)),
{
    let r = s.push(e);
    assert forall|i: int, j: int| 0 <= i < j < r.len() implies (#[trigger] r[i]).key != (
    #[trigger] r[j]).key by {
        if j < s.len() {
        } else {
            assert(r[i] == s[i]);
        }
    }
}

/// Copies a vector of instants.
fn clone_times(v: &Vec<u64>) -> (r: Vec<u64>)
    ensures
        r@ == v@,
{
    let mut r: Vec<u64> = Vec::new();
    let mut i: usize = 0;
    while i < v.len()
        invariant
            i <= v.len(),
            r@ == v@.take(i as int),
        decreases v.len() - i,
    {
        r.push(v[i]);
        i = i + 1;
        proof {
            assert(v@.take(i as int) =~= v@.take(i - 1).push(v@[i - 1]));
        }
    }
    proof {
        assert(v@.take(v@.len() as int) =~= v@);
    }
    r
}

/// Copies one identity's history.
fn clone_history(e: &IdentityHistory) -> (r: IdentityHistory)
    ensures
        r@ == e@,
{
    IdentityHistory { key: e.key.clone(), times: clone_times(&e.times) }
}

/// The instants of `times` still inside the window ending at `now`.
#[verifier::loop_isolation(false)]
fn prune_times(times: &Vec<u64>, now: u64, window: u64) -> (r: Vec<u64>)
    ensures
        r@ == prune_spec(times@, now, window),
{
    let mut r: Vec<u64> = Vec::new();
    let mut i: usize = 0;
    proof {
        assert(r@ =~= prune_spec(times@.take(0), now, window));
    }
    while i < times.len()
        invariant
            i <= times.len(),
            r@ == prune_spec(times@.take(i as int), now, window),
        decreases times.len() - i,
    {
        let t = times[i];
        let live = if window > u64::MAX - t {
            true
        } else {
            t + window > now
        };
        if live {
            r.push(t);
        }
        i = i + 1;
        proof {
            assert(times@.take(i as int).drop_last() =~= times@.take(i - 1));
            assert(times@.take(i as int).last() == times@[i - 1]);
            assert(r@ =~= prune_spec(times@.take(i as int), now, window));
        }
    }
    proof {
        assert(times@.take(times@.len() as int) =~= times@);
    }
    r
}

} // verus!
