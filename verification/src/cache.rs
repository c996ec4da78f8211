//! A string-keyed cache whose entries are treated as absent once their age
//! reaches the configured time-to-live.
//!
//! Expiry is lazy: an expired entry stays in place until it is overwritten or
//! removed, and is simply never handed out. The store itself cannot fail; it
//! performs no input or output.

use vstd::prelude::*;

verus! {

/// Default time-to-live of one hour, in seconds.
pub const DEFAULT_CACHE_DURATION_SECS: u64 = 3600;

/// A cached value together with the time, in seconds, at which it was stored.
#[derive(Debug)]
pub struct CacheEntry<V> {
    pub value: V,
    pub timestamp: u64,
}

/// A key-value store with lazy time-to-live expiry.
///
/// Keys are strings; values are any type the caller wishes to cache. All
/// operations take the current time as an argument, so that freshness is a
/// function of the call's inputs alone.
pub struct Cache<V> {
    entries: Vec<(String, CacheEntry<V>)>,
    ttl: u64,
}

impl<V> Cache<V> {
    /// First index whose key reads `k`, or `-1` when no entry has that key.
    spec fn find_key(s: Seq<(String, CacheEntry<V>)>, k: Seq<char>) -> int
        decreases s.len(),
    {
        if s.len() == 0 {
            -1
        } else if s[0].0@ == k {
            0
        } else {
            let r = Self::find_key(s.skip(1), k);
            if r == -1 {
                -1
            } else {
                r + 1
            }
        }
    }

    /// The entry stored under key `k`, if any, fresh or not.
    pub closed spec fn spec_get(self, k: Seq<char>) -> Option<CacheEntry<V>> {
        let i = Self::find_key(self.entries@, k);
        if i >= 0 {
            Some(self.entries@[i].1)
        } else {
            None
        }
    }

    /// The configured time-to-live, in seconds.
    pub closed spec fn spec_ttl(self) -> u64 {
        self.ttl
    }

    /// An entry is fresh at `now` when its age is below the time-to-live.
    /// A timestamp in the future (a clock that went backwards) is not fresh.
    pub open spec fn fresh_at(self, e: CacheEntry<V>, now: u64) -> bool {
        e.timestamp <= now < e.timestamp + self.spec_ttl()
    }

    /// What `get` returns: the stored value iff the entry exists and is fresh.
    pub open spec fn spec_lookup(self, k: Seq<char>, now: u64) -> Option<V> {
        match self.spec_get(k) {
            Some(e) => if self.fresh_at(e, now) {
                Some(e.value)
            } else {
                None
            },
            None => None,
        }
    }

    /// No two entries share a key.
    pub closed spec fn wf(self) -> bool {
        forall|i: int, j: int|
            0 <= i < j < self.entries@.len() ==> self.entries@[i].0@ != self.entries@[j].0@
    }

    proof fn lemma_find_at(s: Seq<(String, CacheEntry<V>)>, k: Seq<char>, i: int)
        requires
            0 <= i < s.len(),
            s[i].0@ == k,
            forall|j: int| 0 <= j < i ==> s[j].0@ != k,
        ensures
            Self::find_key(s, k) == i,
        decreases i,
    {
        if i > 0 {
            Self::lemma_find_at(s.skip(1), k, i - 1);
        }
    }

    proof fn lemma_find_none(s: Seq<(String, CacheEntry<V>)>, k: Seq<char>)
        requires
            forall|j: int| 0 <= j < s.len() ==> s[j].0@ != k,
        ensures
            Self::find_key(s, k) == -1,
        decreases s.len(),
    {
        if s.len() > 0 {
            Self::lemma_find_none(s.skip(1), k);
        }
    }

    /// `find_key` returns either `-1` and no entry matches, or the first
    /// matching index.
    proof fn lemma_find_props(s: Seq<(String, CacheEntry<V>)>, k: Seq<char>)
        ensures
            ({
                let f = Self::find_key(s, k);
                if f == -1 {
                    forall|j: int| 0 <= j < s.len() ==> s[j].0@ != k
                } else {
                    &&& 0 <= f < s.len()
                    &&& s[f].0@ == k
                    &&& forall|j: int| 0 <= j < f ==> s[j].0@ != k
                }
            }),
        decreases s.len(),
    {
        if s.len() > 0 && s[0].0@ != k {
            Self::lemma_find_props(s.skip(1), k);
            let f1 = Self::find_key(s.skip(1), k);
            if f1 == -1 {
                assert forall|j: int| 0 <= j < s.len() implies s[j].0@ != k by {
                    if j > 0 {
                        assert(s.skip(1)[j - 1] == s[j]);
                    }
                }
            } else {
                assert(s.skip(1)[f1] == s[f1 + 1]);
                assert forall|j: int| 0 <= j < f1 + 1 implies s[j].0@ != k by {
                    if j > 0 {
                        assert(s.skip(1)[j - 1] == s[j]);
                    }
                }
            }
        }
    }

    /// Two sequences with the same keys in the same places are searched alike.
    proof fn lemma_find_same_keys(
        s1: Seq<(String, CacheEntry<V>)>,
        s2: Seq<(String, CacheEntry<V>)>,
        k: Seq<char>,
    )
        requires
            s1.len() == s2.len(),
            forall|j: int| 0 <= j < s1.len() ==> s1[j].0@ == s2[j].0@,
        ensures
            Self::find_key(s1, k) == Self::find_key(s2, k),
        decreases s1.len(),
    {
        if s1.len() > 0 {
            assert(s1.skip(1).len() == s2.skip(1).len());
            assert(forall|j: int|
                0 <= j < s1.skip(1).len() ==> s1.skip(1)[j].0@ == s2.skip(1)[j].0@);
            Self::lemma_find_same_keys(s1.skip(1), s2.skip(1), k);
        }
    }

    /// Appending an entry with a different key does not change the search.
    proof fn lemma_find_push(
        s: Seq<(String, CacheEntry<V>)>,
        x: (String, CacheEntry<V>),
        k: Seq<char>,
    )
        requires
            x.0@ != k,
        ensures
            Self::find_key(s.push(x), k) == Self::find_key(s, k),
        decreases s.len(),
    {
        let t = s.push(x);
        if s.len() == 0 {
            assert(t[0] == x);
            assert(t.skip(1) =~= Seq::<(String, CacheEntry<V>)>::empty());
            assert(Self::find_key(t.skip(1), k) == -1);
            assert(Self::find_key(t, k) == -1);
        } else {
            assert(t[0] == s[0]);
            if s[0].0@ == k {
                assert(Self::find_key(t, k) == 0);
            } else {
                assert(t.skip(1) =~= s.skip(1).push(x));
                Self::lemma_find_push(s.skip(1), x, k);
                assert(Self::find_key(t.skip(1), k) == Self::find_key(s.skip(1), k));
            }
        }
    }

    /// Create a cache with the given time-to-live, in seconds.
    pub fn new(ttl_secs: u64) -> (c: Self)
        ensures
            c.wf(),
            c.spec_ttl() == ttl_secs,
            forall|k: Seq<char>| c.spec_get(k) is None,
    {
        let c = Cache { entries: Vec::new(), ttl: ttl_secs };
        proof {
            assert forall|k: Seq<char>| c.spec_get(k) is None by {
                Self::lemma_find_none(c.entries@, k);
            }
        }
        c
    }

    /// Create a cache with the default time-to-live of one hour.
    pub fn default() -> (c: Self)
        ensures
            c.wf(),
            c.spec_ttl() == DEFAULT_CACHE_DURATION_SECS,
            forall|k: Seq<char>| c.spec_get(k) is None,
    {
        Self::new(DEFAULT_CACHE_DURATION_SECS)
    }

    /// Look up `key` at time `now`: returns the stored value iff an entry for
    /// `key` exists and is fresh. Never mutates the cache (it takes `&self`),
    /// and leaves an expired entry in place.
    pub fn get(&self, key: &String, now: u64) -> (r: Option<&V>)
        ensures
            match r {
                Some(v) => self.spec_lookup(key@, now) == Some(*v),
                None => self.spec_lookup(key@, now) is None,
            },
    {
        let n = self.entries.len();
        let mut i: usize = 0;
        while i < n
            invariant
                n == self.entries@.len(),
                i <= n,
                forall|j: int| 0 <= j < i ==> self.entries@[j].0@ != key@,
            decreases n - i,
        {
            let pair = &self.entries[i];
            if pair.0 == *key {
                proof {
                    Self::lemma_find_at(self.entries@, key@, i as int);
                }
                let e = &pair.1;
                if e.timestamp <= now && now - e.timestamp < self.ttl {
                    return Some(&e.value);
                } else {
                    return None;
                }
            }
            i += 1;
        }
        proof {
            Self::lemma_find_none(self.entries@, key@);
        }
        None
    }

    /// Store `value` under `key` with timestamp `now`, overwriting any
    /// previous entry for `key`. Entries under other keys are untouched.
    #[verifier::loop_isolation(false)]
    pub fn insert(&mut self, key: String, value: V, now: u64)
        requires
            old(self).wf(),
        ensures
            final(self).wf(),
            final(self).spec_ttl() == old(self).spec_ttl(),
            final(self).spec_get(key@) == Some(CacheEntry { value, timestamp: now }),
            forall|k2: Seq<char>|
                k2 != key@ ==> final(self).spec_get(k2) == old(self).spec_get(k2),
    {
        let ghost s0 = self.entries@;
        let entry = CacheEntry { value, timestamp: now };
        let n = self.entries.len();
        let mut i: usize = 0;
        while i < n
            invariant
                self.entries@ == s0,
                self.spec_ttl() == old(self).spec_ttl(),
                i <= n,
                forall|j: int| 0 <= j < i ==> s0[j].0@ != key@,
            decreases n - i,
        {
            if self.entries[i].0 == key {
                let ghost fi = i as int;
                self.entries.set(i, (key, entry));
                proof {
                    let s1 = self.entries@;
                    assert(s1 == s0.update(fi, s1[fi]));
                    assert forall|a: int, b: int|
                        0 <= a < b < s1.len() implies s1[a].0@ != s1[b].0@ by {
                        assert(s1[a].0@ == s0[a].0@);
                        assert(s1[b].0@ == s0[b].0@);
                    }
                    Self::lemma_find_at(s1, key@, fi);
                    assert forall|k2: Seq<char>| k2 != key@
                        implies self.spec_get(k2) == old(self).spec_get(k2) by {
                        assert(forall|j: int| 0 <= j < s0.len() ==> s0[j].0@ == s1[j].0@);
                        Self::lemma_find_same_keys(s0, s1, k2);
                        Self::lemma_find_props(s0, k2);
                        let f = Self::find_key(s0, k2);
                        if f >= 0 {
                            assert(s0[f].0@ == k2);
                            assert(f != fi);
                            assert(s1[f].1 == s0[f].1);
                        }
                    }
                }
                return;
            }
            i += 1;
        }
        self.entries.push((key, entry));
        proof {
            let s1 = self.entries@;
            assert(s1 == s0.push(s1.last()));
            assert forall|a: int, b: int|
                0 <= a < b < s1.len() implies s1[a].0@ != s1[b].0@ by {
                if b < s0.len() {
                    assert(s1[a].0@ == s0[a].0@);
                    assert(s1[b].0@ == s0[b].0@);
                } else {
                    assert(s1[a].0@ == s0[a].0@);
                    assert(s1[b].0@ == key@);
                }
            }
            Self::lemma_find_at(s1, key@, s0.len() as int);
            assert forall|k2: Seq<char>| k2 != key@
                implies self.spec_get(k2) == old(self).spec_get(k2) by {
                Self::lemma_find_push(s0, s1.last(), k2);
                Self::lemma_find_props(s0, k2);
            }
        }
    }

    /// Delete the entry for `key` if present; otherwise do nothing.
    #[verifier::loop_isolation(false)]
    pub fn remove(&mut self, key: &String)
        requires
            old(self).wf(),
        ensures
            final(self).wf(),
            final(self).spec_ttl() == old(self).spec_ttl(),
            final(self).spec_get(key@) is None,
            forall|k2: Seq<char>|
                k2 != key@ ==> final(self).spec_get(k2) == old(self).spec_get(k2),
    {
        let ghost s0 = self.entries@;
        let n = self.entries.len();
        let mut i: usize = 0;
        while i < n
            invariant
                self.entries@ == s0,
                self.spec_ttl() == old(self).spec_ttl(),
                i <= n,
                forall|j: int| 0 <= j < i ==> s0[j].0@ != key@,
            decreases n - i,
        {
            if self.entries[i].0 == *key {
                let ghost fi = i as int;
                self.entries.remove(i);
                proof {
                    let s1 = self.entries@;
                    s0.remove_ensures(fi);
                    assert forall|a: int, b: int|
                        0 <= a < b < s1.len() implies s1[a].0@ != s1[b].0@ by {
                        let a0 = if a < fi { a } else { a + 1 };
                        let b0 = if b < fi { b } else { b + 1 };
                        assert(s1[a] == s0[a0]);
                        assert(s1[b] == s0[b0]);
                    }
                    assert forall|j: int| 0 <= j < s1.len() implies s1[j].0@ != key@ by {
                        let j0 = if j < fi { j } else { j + 1 };
                        assert(s1[j] == s0[j0]);
                        if j0 != fi {
                            assert(s0[j0].0@ != s0[fi].0@);
                        }
                    }
                    Self::lemma_find_none(s1, key@);
                    assert forall|k2: Seq<char>| k2 != key@
                        implies self.spec_get(k2) == old(self).spec_get(k2) by {
                        Self::lemma_find_props(s0, k2);
                        let f = Self::find_key(s0, k2);
                        if f == -1 {
                            assert forall|j: int| 0 <= j < s1.len() implies s1[j].0@ != k2 by {
                                let j0 = if j < fi { j } else { j + 1 };
                                assert(s1[j] == s0[j0]);
                            }
                            Self::lemma_find_none(s1, k2);
                        } else if f < fi {
                            assert(s1[f] == s0[f]);
                            assert forall|j: int| 0 <= j < f implies s1[j].0@ != k2 by {
                                assert(s1[j] == s0[j]);
                            }
                            Self::lemma_find_at(s1, k2, f);
                        } else {
                            assert(f != fi);
                            assert(s1[f - 1] == s0[f]);
                            assert forall|j: int| 0 <= j < f - 1 implies s1[j].0@ != k2 by {
                                let j0 = if j < fi { j } else { j + 1 };
                                assert(s1[j] == s0[j0]);
                            }
                            Self::lemma_find_at(s1, k2, f - 1);
                        }
                    }
                }
                return;
            }
            i += 1;
        }
        proof {
            Self::lemma_find_props(s0, key@);
        }
    }

    /// Delete every entry.
    pub fn clear(&mut self)
        ensures
            final(self).wf(),
            final(self).spec_ttl() == old(self).spec_ttl(),
            forall|k: Seq<char>| final(self).spec_get(k) is None,
    {
        self.entries.clear();
        proof {
            assert forall|k: Seq<char>| self.spec_get(k) is None by {
                Self::lemma_find_none(self.entries@, k);
            }
        }
    }
}

/// Inserting a value and reading it back at the same instant yields that
/// value whenever the time-to-live is positive; once the time-to-live has
/// elapsed, the same key reads as absent.
pub proof fn lemma_ttl_correctness<V>(c: Cache<V>, k: Seq<char>, v: V, now: u64, later: u64)
    requires
        c.spec_get(k) == Some(CacheEntry { value: v, timestamp: now }),
    ensures
        c.spec_ttl() > 0 ==> c.spec_lookup(k, now) == Some(v),
        later >= now + c.spec_ttl() ==> c.spec_lookup(k, later) is None,
{
}

/// A lookup depends only on the stored entry, the time-to-live and the time
/// of the call: it does not change the cache (`get` takes `&self`), so two
/// caches that agree on a key agree on every lookup of that key, and repeated
/// lookups at the same time return the same value.
pub proof fn lemma_get_idempotent<V>(c1: Cache<V>, c2: Cache<V>, k: Seq<char>, now: u64)
    requires
        c1.spec_get(k) == c2.spec_get(k),
        c1.spec_ttl() == c2.spec_ttl(),
    ensures
        c1.spec_lookup(k, now) == c2.spec_lookup(k, now),
{
}

} // verus!
