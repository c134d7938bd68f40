//! A time-based cache of values by key.
//!
//! Each entry remembers when its value was first seen and when it was last
//! refreshed. A value is served from the cache while its last refresh is
//! younger than the caller's time-to-live; refreshing with an equal value
//! keeps its age, refreshing with a different value restarts it. Entries not
//! refreshed for `purge_after` are dropped by a periodic scan.
//!
//! Times are milliseconds on a monotonic clock supplied by the caller.
use vstd::prelude::*;
use vstd::std_specs::cmp::PartialEqSpec;

verus! {

/// How long an entry may go without refresh before a scan drops it.
pub const DEFAULT_PURGE_AFTER_MS: u64 = 600_000;

/// A cached value with the time it was first seen and last refreshed.
pub struct CacheEntry<T> {
    pub value: T,
    pub first_seen: u64,
    pub last_checked: u64,
}

/// The cache's table: at most one entry per key.
pub struct InnerCache<V> {
    pub map: Vec<(String, CacheEntry<V>)>,
    pub last_scanned: u64,
    pub purge_after: u64,
}

/// `a - b`, or zero when `b` is later.
pub open spec fn elapsed(a: u64, b: u64) -> u64 {
    if a >= b {
        (a - b) as u64
    } else {
        0
    }
}

/// What a lookup at `now` gives for an entry: its age and value while the
/// entry was refreshed less than `ttl` ago, else nothing.
pub open spec fn fresh_spec<V>(e: Option<&CacheEntry<V>>, ttl: u64, now: u64) -> Option<(u64, &V)> {
    match e {
        Some(e) => if e.last_checked + ttl > now {
            Some((elapsed(now, e.first_seen), &e.value))
        } else {
            None
        },
        None => None,
    }
}

/// The entry after recording `value` at `now` over `old`: an equal cached
/// value keeps its first-seen time, anything else starts afresh.
pub open spec fn refreshed_entry<V: PartialEq>(old: Option<&CacheEntry<V>>, value: V, now: u64) -> CacheEntry<V> {
    match old {
        Some(e) => if e.value.eq_spec(&value) {
            CacheEntry { value: e.value, first_seen: e.first_seen, last_checked: now }
        } else {
            CacheEntry { value, first_seen: now, last_checked: now }
        },
        None => CacheEntry { value, first_seen: now, last_checked: now },
    }
}

/// Read after write: a value just recorded under a key is served for that
/// key until `ttl` has passed since the recording. What is served is the
/// recorded value, or an equal one that was cached before (which keeps its
/// age); a new or changed value is served with the time since the recording.
pub proof fn lemma_recorded_value_is_served<V: PartialEq>(
    old: Option<&CacheEntry<V>>,
    value: V,
    now: u64,
    ttl: u64,
    later: u64,
)
    requires
        now <= later,
        later < now + ttl,
    ensures
        fresh_spec(Some(&refreshed_entry(old, value, now)), ttl, later) matches Some((age, v)) && (*v == value
            || v.eq_spec(&value)) && age == elapsed(later, refreshed_entry(old, value, now).first_seen),
        !(old matches Some(e) && e.value.eq_spec(&value)) ==> fresh_spec(
            Some(&refreshed_entry(old, value, now)),
            ttl,
            later,
        ) == Some((elapsed(later, now), &value)),
{
}

/// `after` is `before` with `value` recorded for `key` at `now` (see
/// `record_fresh`).
pub open spec fn recorded<V: PartialEq>(before: InnerCache<V>, after: InnerCache<V>, key: Seq<char>, value: V, now: u64) -> bool {
    &&& after.wf()
    &&& after.entry(key) == Some(&refreshed_entry(before.entry(key), value, now))
    &&& after.last_scanned == before.last_scanned
    &&& after.purge_after == before.purge_after
    &&& after.keys() == before.keys().insert(key)
    &&& forall|k: Seq<char>| k != key ==> #[trigger] after.entry(k) == before.entry(k)
}

/// `after` is `before` after a purge check at `now` (see `check_purge_old`).
pub open spec fn purged<V>(before: InnerCache<V>, after: InnerCache<V>, now: u64) -> bool {
    &&& after.wf()
    &&& after.purge_after == before.purge_after
    &&& if elapsed(now, before.last_scanned) < before.purge_after {
        after.map@ == before.map@ && after.last_scanned == before.last_scanned
    } else {
        after.last_scanned == now && after.map@ == before.map@.filter(
            |e: (String, CacheEntry<V>)| elapsed(now, e.1.last_checked) < before.purge_after,
        )
    }
}

impl<V> InnerCache<V> {
    /// No key occurs twice.
    pub open spec fn wf(&self) -> bool {
        forall|i: int, j: int|
            0 <= i < j < self.map@.len() ==> #[trigger] self.map@[i].0@ != #[trigger] self.map@[j].0@
    }

    /// The index of the entry for `key`, if any.
    pub open spec fn index_of(&self, key: Seq<char>) -> Option<int> {
        if exists|i: int| 0 <= i < self.map@.len() && #[trigger] self.map@[i].0@ == key {
            Some(choose|i: int| 0 <= i < self.map@.len() && #[trigger] self.map@[i].0@ == key)
        } else {
            None
        }
    }

    /// The entry for `key`, if any.
    pub open spec fn entry(&self, key: Seq<char>) -> Option<&CacheEntry<V>> {
        match self.index_of(key) {
            Some(i) => Some(&self.map@[i].1),
            None => None,
        }
    }

    /// The keys in the cache.
    pub open spec fn keys(&self) -> Set<Seq<char>> {
        Set::new(|k: Seq<char>| self.index_of(k) is Some)
    }

    /// An empty cache whose last scan is `now`, purging after ten minutes.
    pub fn new(now: u64) -> (c: Self)
        ensures
            c.wf(),
            c.map@.len() == 0,
            c.last_scanned == now,
            c.purge_after == DEFAULT_PURGE_AFTER_MS,
    {
        InnerCache { map: Vec::new(), last_scanned: now, purge_after: DEFAULT_PURGE_AFTER_MS }
    }

    /// Position of `key` in the table.
    fn find(&self, key: &String) -> (r: Option<usize>)
        ensures
            r matches Some(i) ==> i < self.map@.len() && self.map@[i as int].0@ == key@,
            r is None ==> forall|i: int| 0 <= i < self.map@.len() ==> #[trigger] self.map@[i].0@ != key@,
    {
        let mut i: usize = 0;
        while i < self.map.len()
            invariant
                i <= self.map@.len(),
                forall|j: int| 0 <= j < i ==> #[trigger] self.map@[j].0@ != key@,
            decreases self.map.len() - i,
        {
            if self.map[i].0 == *key {
                return Some(i);
            }
            i = i + 1;
        }
        None
    }

    proof fn lemma_index_of(&self, key: Seq<char>, i: int)
        requires
            self.wf(),
            0 <= i < self.map@.len(),
            self.map@[i].0@ == key,
        ensures
            self.index_of(key) == Some(i),
    {
        let w = choose|j: int| 0 <= j < self.map@.len() && #[trigger] self.map@[j].0@ == key;
        if w < i {
        } else if w > i {
        }
    }

    /// The cached value of `key` with its age, if the entry was refreshed less
    /// than `ttl` ago.
    pub fn fresh_value(&self, key: &String, ttl: u64, now: u64) -> (r: Option<(u64, &V)>)
        requires
            self.wf(),
        ensures
            r == fresh_spec(self.entry(key@), ttl, now),
    {
        match self.find(key) {
            Some(i) => {
                proof {
                    self.lemma_index_of(key@, i as int);
                }
                let e = &self.map[i].1;
                if (e.last_checked as u128) + (ttl as u128) > now as u128 {
                    let age = if now >= e.first_seen {
                        now - e.first_seen
                    } else {
                        0
                    };
                    Some((age, &e.value))
                } else {
                    None
                }
            },
            None => None,
        }
    }
}

impl<V: PartialEq> InnerCache<V> {
    /// Stores a freshly fetched value for `key` at time `now` and returns its
    /// age: zero for a new key or a changed value, the time since the value
    /// was first seen otherwise. Other entries are untouched.
    pub fn record_fresh(&mut self, key: String, value: V, now: u64) -> (age: u64)
        requires
            old(self).wf(),
            <V as PartialEqSpec>::obeys_eq_spec(),
        ensures
            final(self).wf(),
            final(self).entry(key@) == Some(&refreshed_entry(old(self).entry(key@), value, now)),
            age == elapsed(now, refreshed_entry(old(self).entry(key@), value, now).first_seen),
            final(self).last_scanned == old(self).last_scanned,
            final(self).purge_after == old(self).purge_after,
            final(self).keys() == old(self).keys().insert(key@),
            forall|k: Seq<char>| k != key@ ==> #[trigger] final(self).entry(k) == old(self).entry(k),
    {
        match self.find(&key) {
            Some(i) => {
                proof {
                    old(self).lemma_index_of(key@, i as int);
                }
                let (k, mut e) = self.map.remove(i);
                let changed = !(e.value == value);
                if changed {
                    e.value = value;
                    e.first_seen = now;
                }
                e.last_checked = now;
                let age = if now >= e.first_seen {
                    now - e.first_seen
                } else {
                    0
                };
                self.map.insert(i, (k, e));
                proof {
                    assert(self.map@ =~= old(self).map@.update(i as int, self.map@[i as int]));
                    self.lemma_index_of(key@, i as int);
                    assert forall|kk: Seq<char>| kk != key@ implies #[trigger] self.entry(kk) == old(self).entry(kk) by {
                        if old(self).index_of(kk) is Some {
                            let j = old(self).index_of(kk).unwrap();
                            old(self).lemma_index_of(kk, j);
                            self.lemma_index_of(kk, j);
                        } else if self.index_of(kk) is Some {
                            let j = self.index_of(kk).unwrap();
                            self.lemma_index_of(kk, j);
                        }
                    }
                    assert forall|kk: Seq<char>| #[trigger] self.keys().contains(kk) == old(self).keys().insert(key@).contains(kk) by {
                        if kk != key@ {
                            assert(self.entry(kk) == old(self).entry(kk));
                        }
                    }
                    assert(self.keys() =~= old(self).keys().insert(key@));
                }
                age
            },
            None => {
                self.map.push((key, CacheEntry { value, first_seen: now, last_checked: now }));
                proof {
                    let n = old(self).map@.len();
                    assert(self.map@[n as int].0@ == key@);
                    assert forall|a: int, b: int| 0 <= a < b < self.map@.len() implies #[trigger] self.map@[a].0@ != #[trigger] self.map@[b].0@ by {
                        if b == n {
                            assert(self.map@[a] == old(self).map@[a]);
                        } else {
                            assert(self.map@[a] == old(self).map@[a]);
                            assert(self.map@[b] == old(self).map@[b]);
                        }
                    }
                    self.lemma_index_of(key@, n as int);
                    assert forall|kk: Seq<char>| kk != key@ implies #[trigger] self.entry(kk) == old(self).entry(kk) by {
                        if old(self).index_of(kk) is Some {
                            let j = old(self).index_of(kk).unwrap();
                            old(self).lemma_index_of(kk, j);
                            assert(self.map@[j] == old(self).map@[j]);
                            self.lemma_index_of(kk, j);
                        } else if self.index_of(kk) is Some {
                            let j = self.index_of(kk).unwrap();
                            self.lemma_index_of(kk, j);
                            if j < n {
                                assert(self.map@[j] == old(self).map@[j]);
                            }
                        }
                    }
                    assert forall|kk: Seq<char>| #[trigger] self.keys().contains(kk) == old(self).keys().insert(key@).contains(kk) by {
                        if kk != key@ {
                            assert(self.entry(kk) == old(self).entry(kk));
                        }
                    }
                    assert(self.keys() =~= old(self).keys().insert(key@));
                }
                0
            },
        }
    }
}

impl<V: PartialEq> InnerCache<V> {
    /// Ends a get-or-insert whose cached value was missing or stale (see
    /// `fresh_value`): a failed fetch hands its error back and leaves the
    /// table as it was; a fetched value is recorded for `key` at `now` (see
    /// `record_fresh`), old entries are then purged (see `check_purge_old`),
    /// and the value's age is returned.
    pub fn finish_fetch<E>(&mut self, key: String, fetched: Result<V, E>, now: u64) -> (r: Result<u64, E>)
        requires
            old(self).wf(),
            <V as PartialEqSpec>::obeys_eq_spec(),
        ensures
            match fetched {
                Err(e) => r == Err::<u64, E>(e) && *final(self) == *old(self),
                Ok(v) => {
                    &&& r == Ok::<u64, E>(elapsed(now, refreshed_entry(old(self).entry(key@), v, now).first_seen))
                    &&& exists|mid: InnerCache<V>| recorded(*old(self), mid, key@, v, now) && purged(mid, *final(self), now)
                },
            },
    {
        match fetched {
            Err(e) => Err(e),
            Ok(v) => {
                let ghost v0 = v;
                let age = self.record_fresh(key, v, now);
                let ghost mid = *self;
                self.check_purge_old(now);
                assert(recorded(*old(self), mid, key@, v0, now) && purged(mid, *self, now));
                Ok(age)
            },
        }
    }
}

impl<V> InnerCache<V> {
    /// At time `now`: if the last scan is at least `purge_after` old, drops
    /// every entry not refreshed within `purge_after` and records the scan;
    /// otherwise changes nothing. Kept entries keep their order.
    pub fn check_purge_old(&mut self, now: u64)
        requires
            old(self).wf(),
        ensures
            final(self).wf(),
            final(self).purge_after == old(self).purge_after,
            if elapsed(now, old(self).last_scanned) < old(self).purge_after {
                final(self).map@ == old(self).map@ && final(self).last_scanned == old(self).last_scanned
            } else {
                final(self).last_scanned == now && final(self).map@ == old(self).map@.filter(
                    |e: (String, CacheEntry<V>)| elapsed(now, e.1.last_checked) < old(self).purge_after,
                )
            },
    {
        let since = if now >= self.last_scanned {
            now - self.last_scanned
        } else {
            0
        };
        if since < self.purge_after {
            return;
        }
        let purge_after = self.purge_after;
        let ghost pred = |e: (String, CacheEntry<V>)| elapsed(now, e.1.last_checked) < purge_after;
        let mut old_map: Vec<(String, CacheEntry<V>)> = Vec::new();
        std::mem::swap(&mut old_map, &mut self.map);
        let ghost orig = old_map@;
        let mut kept: Vec<(String, CacheEntry<V>)> = Vec::new();
        let mut rest = old_map;
        proof {
            assert(orig.take(0).filter(pred) =~= Seq::<(String, CacheEntry<V>)>::empty());
            assert(orig.skip(0) =~= orig);
        }
        while rest.len() > 0
            invariant
                kept@ == orig.take(orig.len() - rest@.len()).filter(pred),
                forall|x: (String, CacheEntry<V>)| #[trigger] pred(x) == (elapsed(now, x.1.last_checked) < purge_after),
                rest@.len() <= orig.len(),
                forall|a: int, b: int| 0 <= a < b < orig.len() ==> #[trigger] orig[a].0@ != #[trigger] orig[b].0@,
                forall|a: int| 0 <= a < kept@.len() ==> exists|idx: int| 0 <= idx < orig.len() - rest@.len() && #[trigger] kept@[a] == orig[idx],
                forall|a: int, b: int| 0 <= a < b < kept@.len() ==> #[trigger] kept@[a].0@ != #[trigger] kept@[b].0@,
                rest@ == orig.skip(orig.len() - rest@.len()),
            decreases rest@.len(),
        {
            let ghost done = orig.len() - rest@.len();
            let e = rest.remove(0);
            proof {
                assert(e == orig[done]);
                assert(rest@ =~= orig.skip(orig.len() - rest@.len()));
                assert(orig.take(done + 1).drop_last() =~= orig.take(done));
                reveal_with_fuel(Seq::<_>::filter, 1);
            }
            let age = if now >= e.1.last_checked {
                now - e.1.last_checked
            } else {
                0
            };
            let ghost before = kept@;
            if age < purge_after {
                kept.push(e);
                proof {
                    assert forall|a: int, b: int| 0 <= a < b < kept@.len() implies #[trigger] kept@[a].0@ != #[trigger] kept@[b].0@ by {
                        if b == before.len() {
                            assert(kept@[a] == before[a]);
                            let idx = choose|idx: int| 0 <= idx < done && #[trigger] before[a] == orig[idx];
                        } else {
                            assert(kept@[a] == before[a]);
                            assert(kept@[b] == before[b]);
                        }
                    }
                    assert forall|a: int| 0 <= a < kept@.len() implies exists|idx: int| 0 <= idx < orig.len() - rest@.len() && #[trigger] kept@[a] == orig[idx] by {
                        if a == before.len() {
                            assert(kept@[a] == orig[done]);
                        } else {
                            assert(kept@[a] == before[a]);
                            let idx = choose|idx: int| 0 <= idx < done && #[trigger] before[a] == orig[idx];
                            assert(kept@[a] == orig[idx]);
                        }
                    }
                }
            }
            proof {
                reveal_with_fuel(Seq::<_>::filter, 1);
                let t = orig.take(done + 1);
                assert(t.drop_last() =~= orig.take(done));
                assert(t.last() == orig[done]);
                assert(pred(orig[done]) == (age < purge_after));
                assert(kept@ == t.filter(pred));
            }
        }
        proof {
            assert(orig.take(orig.len() as int) =~= orig);
        }
        self.map = kept;
        self.last_scanned = now;
    }
}

} // verus!
