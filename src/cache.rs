//! A read-through cache of JSON payloads keyed by text, with a fetch time per
//! entry and lazy eviction of stale entries. Time is passed in as seconds.
use vstd::prelude::*;

use crate::text::str_eq;

verus! {

/// One cached payload and the second it was fetched.
pub struct CacheEntry {
    pub key: String,
    pub value: String,
    pub fetched_at: i64,
}

/// Payloads keyed by text; each key at most once.
pub struct TtlCache {
    entries: Vec<CacheEntry>,
}

/// Whether position `i` of `entries` holds the key `k`.
pub open spec fn entry_at(entries: Seq<CacheEntry>, i: int, k: Seq<char>) -> bool {
    0 <= i < entries.len() && entries[i].key@ == k
}

/// Whether an entry fetched at `fetched_at` is still served at `now`.
pub open spec fn is_fresh(now: int, fetched_at: int, ttl_seconds: int) -> bool {
    now - fetched_at < ttl_seconds
}

impl View for TtlCache {
    type V = Map<Seq<char>, (Seq<char>, int)>;

    closed spec fn view(&self) -> Map<Seq<char>, (Seq<char>, int)> {
        Map::new(
            |k: Seq<char>| exists|i: int| entry_at(self.entries@, i, k),
            |k: Seq<char>|
                {
                    let e = self.entries@[choose|i: int| entry_at(self.entries@, i, k)];
                    (e.value@, e.fetched_at as int)
                },
        )
    }
}

fn find_entry(entries: &Vec<CacheEntry>, k: &str) -> (r: Option<usize>)
    ensures
        r matches Some(i) ==> entry_at(entries@, i as int, k@),
        r is None ==> forall|i: int| !entry_at(entries@, i, k@),
{
    let mut i: usize = 0;
    while i < entries.len()
        invariant
            i <= entries@.len(),
            forall|j: int| 0 <= j < i ==> !entry_at(entries@, j, k@),
        decreases entries@.len() - i,
    {
        if str_eq(entries[i].key.as_str(), k) {
            return Some(i);
        }
        i = i + 1;
    }
    None
}

pub open spec fn keys_distinct(entries: Seq<CacheEntry>) -> bool {
    forall|i: int, j: int|
        0 <= i < entries.len() && 0 <= j < entries.len() && i != j ==> entries[i].key@
            != entries[j].key@
}

impl TtlCache {
    #[verifier::type_invariant]
    spec fn inv(self) -> bool {
        keys_distinct(self.entries@)
    }

    /// An empty cache.
    pub fn new() -> (r: Self)
        ensures
            r@ == Map::<Seq<char>, (Seq<char>, int)>::empty(),
    {
        let r = TtlCache { entries: Vec::new() };
        assert(r@ =~= Map::<Seq<char>, (Seq<char>, int)>::empty());
        r
    }

    proof fn lemma_entry(&self, i: int)
        requires
            keys_distinct(self.entries@),
            0 <= i < self.entries@.len(),
        ensures
            self@.contains_key(self.entries@[i].key@),
            self@[self.entries@[i].key@] == (
                self.entries@[i].value@,
                self.entries@[i].fetched_at as int,
            ),
    {
        assert(entry_at(self.entries@, i, self.entries@[i].key@));
    }

    /// Whether `key` has an entry, fresh or not.
    pub fn contains_key(&self, key: &str) -> (r: bool)
        ensures
            r == self@.contains_key(key@),
    {
        match find_entry(&self.entries, key) {
            Some(i) => {
                proof {
                    assert(entry_at(self.entries@, i as int, key@));
                }
                true
            },
            None => false,
        }
    }

    /// The entry of `key`, when it is fresh at `now` under `ttl_seconds`,
    /// leaving stale entries in place.
    pub fn peek_fresh(&self, key: &str, now: i64, ttl_seconds: u64) -> (r: Option<String>)
        ensures
            r matches Some(v) ==> self@.contains_key(key@) && v@ == self@[key@].0 && 0 <= now
                - self@[key@].1 && is_fresh(now as int, self@[key@].1, ttl_seconds as int),
            r is None ==> !self@.contains_key(key@) || now - self@[key@].1 < 0 || !is_fresh(
                now as int,
                self@[key@].1,
                ttl_seconds as int,
            ),
    {
        proof {
            use_type_invariant(self);
        }
        match find_entry(&self.entries, key) {
            Some(i) => {
                proof {
                    self.lemma_entry(i as int);
                }
                let age = now as i128 - self.entries[i].fetched_at as i128;
                if age >= 0 && age < ttl_seconds as i128 {
                    Some(self.entries[i].value.clone())
                } else {
                    None
                }
            },
            None => None,
        }
    }

    /// The payload of `key` when caching is on and its entry is fresh; a stale
    /// entry is evicted. With a zero TTL nothing is served or evicted.
    pub fn get(&mut self, key: &str, now: i64, ttl_seconds: u64) -> (r: Option<String>)
        ensures
            ttl_seconds == 0 ==> r is None && final(self)@ == old(self)@,
            ttl_seconds > 0 && !old(self)@.contains_key(key@) ==> r is None && final(self)@ == old(
                self,
            )@,
            ttl_seconds > 0 && old(self)@.contains_key(key@) && is_fresh(
                now as int,
                old(self)@[key@].1,
                ttl_seconds as int,
            ) ==> r is Some && r->0@ == old(self)@[key@].0 && final(self)@ == old(self)@,
            ttl_seconds > 0 && old(self)@.contains_key(key@) && !is_fresh(
                now as int,
                old(self)@[key@].1,
                ttl_seconds as int,
            ) ==> r is None && final(self)@ == old(self)@.remove(key@),
    {
        proof {
            use_type_invariant(&*self);
        }
        if ttl_seconds == 0 {
            return None;
        }
        let found = find_entry(&self.entries, key);
        match found {
            None => None,
            Some(i) => {
                proof {
                    self.lemma_entry(i as int);
                }
                let age = now as i128 - self.entries[i].fetched_at as i128;
                if age < ttl_seconds as i128 {
                    Some(self.entries[i].value.clone())
                } else {
                    self.evict_at(i);
                    None
                }
            },
        }
    }

    fn evict_at(&mut self, i: usize)
        requires
            i < old(self).entries@.len(),
        ensures
            final(self)@ == old(self)@.remove(old(self).entries@[i as int].key@),
    {
        proof {
            use_type_invariant(&*self);
        }
        let ghost before = *self;
        let ghost old_entries = self.entries@;
        let ghost key = old_entries[i as int].key@;
        let mut entries: Vec<CacheEntry> = Vec::new();
        std::mem::swap(&mut entries, &mut self.entries);
        entries.remove(i);
        proof {
            let ne = entries@;
            assert forall|a: int, b: int|
                0 <= a < ne.len() && 0 <= b < ne.len() && a != b implies ne[a].key@
                != ne[b].key@ by {
                let oa = if a < i {
                    a
                } else {
                    a + 1
                };
                let ob = if b < i {
                    b
                } else {
                    b + 1
                };
                assert(ne[a] == old_entries[oa]);
                assert(ne[b] == old_entries[ob]);
            }
        }
        self.entries = entries;
        proof {
            let ne = self.entries@;
            assert forall|x: Seq<char>| #![auto]
                self@.contains_key(x) == before@.remove(key).contains_key(x) by {
                if exists|j: int| entry_at(ne, j, x) {
                    let j = choose|j: int| entry_at(ne, j, x);
                    let oj = if j < i {
                        j
                    } else {
                        j + 1
                    };
                    assert(ne[j] == old_entries[oj]);
                    assert(entry_at(old_entries, oj, x));
                    assert(oj != i);
                }
                if x != key && exists|j: int| entry_at(old_entries, j, x) {
                    let j = choose|j: int| entry_at(old_entries, j, x);
                    assert(j != i);
                    let nj = if j < i {
                        j
                    } else {
                        j - 1
                    };
                    assert(ne[nj] == old_entries[j]);
                    assert(entry_at(ne, nj, x));
                }
            }
            assert forall|x: Seq<char>| #[trigger] self@.contains_key(x) implies self@[x]
                == before@.remove(key)[x] by {
                let j = choose|j: int| entry_at(ne, j, x);
                self.lemma_entry(j);
                let oj = if j < i {
                    j
                } else {
                    j + 1
                };
                assert(ne[j] == old_entries[oj]);
                before.lemma_entry(oj);
            }
            assert(self@ =~= before@.remove(key));
        }
    }

    /// Stores `value` under `key` as fetched at `now`, whatever the TTL.
    pub fn put(&mut self, key: String, value: String, now: i64)
        ensures
            final(self)@ == old(self)@.insert(key@, (value@, now as int)),
    {
        proof {
            use_type_invariant(&*self);
        }
        let ghost before = *self;
        let ghost k = key@;
        let ghost v = (value@, now as int);
        let mut entries: Vec<CacheEntry> = Vec::new();
        std::mem::swap(&mut entries, &mut self.entries);
        let ghost old_entries = entries@;
        let found = find_entry(&entries, key.as_str());
        let entry = CacheEntry { key, value, fetched_at: now };
        match found {
            Some(i) => {
                entries.set(i, entry);
            },
            None => {
                entries.push(entry);
            },
        }
        proof {
            let ne = entries@;
            assert forall|a: int, b: int|
                0 <= a < ne.len() && 0 <= b < ne.len() && a != b implies ne[a].key@
                != ne[b].key@ by {
                if found is None {
                    if a == old_entries.len() {
                        assert(!entry_at(old_entries, b, k));
                    } else if b == old_entries.len() {
                        assert(!entry_at(old_entries, a, k));
                    }
                } else {
                    let fi = found->0 as int;
                    assert(entry_at(old_entries, fi, k));
                }
            }
        }
        self.entries = entries;
        proof {
            let ne = self.entries@;
            assert forall|x: Seq<char>| #![auto]
                self@.contains_key(x) == before@.insert(k, v).contains_key(x) by {
                if x == k {
                    match found {
                        Some(fi) => {
                            assert(entry_at(ne, fi as int, k));
                        },
                        None => {
                            assert(entry_at(ne, ne.len() - 1, k));
                        },
                    }
                } else {
                    if exists|i: int| entry_at(ne, i, x) {
                        let i = choose|i: int| entry_at(ne, i, x);
                        assert(entry_at(old_entries, i, x));
                    }
                    if exists|i: int| entry_at(old_entries, i, x) {
                        let i = choose|i: int| entry_at(old_entries, i, x);
                        assert(entry_at(ne, i, x));
                    }
                }
            }
            assert forall|x: Seq<char>| #[trigger] self@.contains_key(x) implies self@[x]
                == before@.insert(k, v)[x] by {
                let i = choose|i: int| entry_at(ne, i, x);
                self.lemma_entry(i);
                if x != k {
                    assert(entry_at(old_entries, i, x));
                    before.lemma_entry(i);
                    assert(ne[i] == old_entries[i]);
                } else {
                    match found {
                        Some(fi) => {
                            assert(entry_at(ne, fi as int, k));
                            assert(i == fi);
                        },
                        None => {
                            assert(entry_at(ne, ne.len() - 1, k));
                            assert(i == ne.len() - 1);
                        },
                    }
                }
            }
            assert(self@ =~= before@.insert(k, v));
        }
    }

    /// Drops every entry.
    pub fn clear(&mut self)
        ensures
            final(self)@ == Map::<Seq<char>, (Seq<char>, int)>::empty(),
    {
        self.entries = Vec::new();
        assert(self@ =~= Map::<Seq<char>, (Seq<char>, int)>::empty());
    }
}

/// A payload put at `put_at` is served by a read while younger than the TTL;
/// once it is not, the read evicts it and the key is gone.
pub proof fn lemma_put_then_get(
    before: Map<Seq<char>, (Seq<char>, int)>,
    key: Seq<char>,
    value: Seq<char>,
    put_at: int,
    now: int,
    ttl_seconds: int,
)
    requires
        ttl_seconds > 0,
    ensures
        ({
            let after = before.insert(key, (value, put_at));
            &&& after.contains_key(key)
            &&& after[key].0 == value
            &&& now - put_at < ttl_seconds ==> is_fresh(now, after[key].1, ttl_seconds)
            &&& !(now - put_at < ttl_seconds) ==> !is_fresh(now, after[key].1, ttl_seconds)
                && !after.remove(key).contains_key(key)
        }),
{
}

} // verus!
