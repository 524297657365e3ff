use std::collections::HashMap;
use vstd::prelude::*;
use vstd::std_specs::hash::group_hash_axioms;
use crate::key::{CanonicalRequestKey, Handle, KeyModel};

verus! {

broadcast use group_hash_axioms;

/// A cached resolve result: when it was made (monotonic milliseconds), the
/// handle handed out, and the status code of the real call.
#[derive(Clone, Copy)]
pub struct CachedResult {
    pub created_at: u64,
    pub handle: Handle,
    pub status: i32,
}

/// Whether `r` is stale at `now` under the time-to-live `ttl`: its age has
/// reached `ttl`. A result made after `now` has not aged.
pub open spec fn is_stale(r: CachedResult, now: u64, ttl: u64) -> bool {
    now - r.created_at >= ttl
}

/// The cache after `r` became authoritative for `k`: the entry that held
/// `r.handle` before, if any, is dropped first.
pub open spec fn entries_after_insert(
    entries: Map<KeyModel, CachedResult>,
    index: Map<Handle, KeyModel>,
    k: KeyModel,
    r: CachedResult,
) -> Map<KeyModel, CachedResult> {
    let e1 = if index.contains_key(r.handle) {
        entries.remove(index[r.handle])
    } else {
        entries
    };
    e1.insert(k, r)
}

/// The reverse index after `r` became authoritative for `k`: the handle that
/// `k` held before, if any, loses its entry.
pub open spec fn index_after_insert(
    entries: Map<KeyModel, CachedResult>,
    index: Map<Handle, KeyModel>,
    k: KeyModel,
    r: CachedResult,
) -> Map<Handle, KeyModel> {
    let e1 = if index.contains_key(r.handle) {
        entries.remove(index[r.handle])
    } else {
        entries
    };
    let i1 = index.remove(r.handle);
    let i2 = if e1.contains_key(k) {
        i1.remove(e1[k].handle)
    } else {
        i1
    };
    i2.insert(r.handle, k)
}

/// Reverse-index consistency: a handle is in the index exactly when it is
/// the live value of some cache entry, and the index names that entry's key.
pub open spec fn index_consistent(
    entries: Map<KeyModel, CachedResult>,
    index: Map<Handle, KeyModel>,
) -> bool {
    &&& forall|h: Handle| #[trigger]
        index.contains_key(h) ==> entries.contains_key(index[h]) && entries[index[h]].handle == h
    &&& forall|k: KeyModel| #[trigger]
        entries.contains_key(k) ==> index.contains_key(entries[k].handle) && index[entries[k].handle]
            == k
}

struct CacheSlot {
    key: CanonicalRequestKey,
    result: CachedResult,
}

spec fn slots_agree(slots: Seq<CacheSlot>, entries: Map<KeyModel, CachedResult>) -> bool {
    &&& forall|i: int|
        0 <= i < slots.len() ==> #[trigger] entries.contains_key(
            slots[i].key@,
        ) && entries[slots[i].key@] == slots[i].result
    &&& forall|k: KeyModel| #[trigger]
        entries.contains_key(k) ==> exists|i: int|
            0 <= i < slots.len() && #[trigger] slots[i].key@ == k
    &&& forall|i: int, j: int|
        0 <= i < slots.len() && 0 <= j < slots.len() && i != j
            ==> #[trigger] slots[i].key@ != #[trigger] slots[j].key@
}

/// The resolution cache, at most one live result per canonical key, with its
/// reverse index from each live handle to the key that owns it.
pub struct ResolutionCache {
    slots: Vec<CacheSlot>,
    reverse: HashMap<Handle, CanonicalRequestKey>,
    entries: Ghost<Map<KeyModel, CachedResult>>,
    index: Ghost<Map<Handle, KeyModel>>,
}

impl ResolutionCache {
    /// The live result of each key.
    pub closed spec fn entries(&self) -> Map<KeyModel, CachedResult> {
        self.entries@
    }

    /// The key that owns each live handle.
    pub closed spec fn index(&self) -> Map<Handle, KeyModel> {
        self.index@
    }

    spec fn slots_match(&self) -> bool {
        slots_agree(self.slots@, self.entries@)
    }

    spec fn reverse_match(&self) -> bool {
        &&& forall|h: Handle| #[trigger]
            self.reverse@.contains_key(h) == self.index@.contains_key(h)
        &&& forall|h: Handle| #[trigger]
            self.reverse@.contains_key(h) ==> self.reverse@[h]@ == self.index@[h]
    }

    /// Well-formedness: the stored data agrees with `entries` and `index`,
    /// and the two are consistent with each other.
    pub open spec fn wf(&self) -> bool {
        &&& self.stored_ok()
        &&& index_consistent(self.entries(), self.index())
    }

    /// The stored slots and the reverse map agree with `entries` and `index`.
    pub closed spec fn stored_ok(&self) -> bool {
        &&& self.slots_match()
        &&& self.reverse_match()
    }

    pub fn new() -> (c: ResolutionCache)
        ensures
            c.wf(),
            c.entries() == Map::<KeyModel, CachedResult>::empty(),
            c.index() == Map::<Handle, KeyModel>::empty(),
    {
        ResolutionCache {
            slots: Vec::new(),
            reverse: HashMap::new(),
            entries: Ghost(Map::empty()),
            index: Ghost(Map::empty()),
        }
    }

    fn find(&self, key: &CanonicalRequestKey) -> (r: Option<usize>)
        requires
            self.slots_match(),
        ensures
            match r {
                Some(i) => i < self.slots@.len() && self.slots@[i as int].key@ == key@,
                None => !self.entries@.contains_key(key@),
            },
    {
        let mut i: usize = 0;
        while i < self.slots.len()
            invariant
                self.slots_match(),
                i <= self.slots@.len(),
                forall|j: int| 0 <= j < i ==> self.slots@[j].key@ != key@,
            decreases self.slots@.len() - i,
        {
            if self.slots[i].key.equivalent(key) {
                return Some(i);
            }
            i = i + 1;
        }
        None
    }

    /// The live result for `key`, if any.
    pub fn lookup(&self, key: &CanonicalRequestKey) -> (r: Option<CachedResult>)
        requires
            self.wf(),
        ensures
            r == (if self.entries().contains_key(key@) {
                Some(self.entries()[key@])
            } else {
                None
            }),
    {
        match self.find(key) {
            Some(i) => Some(self.slots[i].result),
            None => None,
        }
    }

    /// Drops the entry that owns `h`, if any, from the cache and the reverse
    /// index. Returns whether there was one.
    pub fn remove_by_handle(&mut self, h: Handle) -> (found: bool)
        requires
            old(self).wf(),
        ensures
            final(self).wf(),
            found == old(self).index().contains_key(h),
            final(self).entries() == (if found {
                old(self).entries().remove(old(self).index()[h])
            } else {
                old(self).entries()
            }),
            final(self).index() == old(self).index().remove(h),
    {
        match self.reverse.remove(&h) {
            Some(k) => {
                let ghost km = k@;
                assert(self.index@.contains_key(h) && self.index@[h] == km);
                let opt = self.find(&k);
                match opt {
                    Some(i) => {
                        let ghost old_slots = self.slots@;
                        self.slots.remove(i);
                        self.entries = Ghost(self.entries@.remove(km));
                        self.index = Ghost(self.index@.remove(h));
                        assert forall|j: int|
                            0 <= j < self.slots@.len() implies #[trigger] self.entries@.contains_key(
                            self.slots@[j].key@,
                        ) && self.entries@[self.slots@[j].key@] == self.slots@[j].result by {
                            let oj = if j < i { j } else { j + 1 };
                            assert(self.slots@[j] == old_slots[oj]);
                            assert(old_slots[oj].key@ != old_slots[i as int].key@);
                            assert(old(self).entries@.contains_key(old_slots[oj].key@));
                        }
                        assert forall|k2: KeyModel| #[trigger]
                            self.entries@.contains_key(k2) implies exists|j: int|
                            0 <= j < self.slots@.len() && #[trigger] self.slots@[j].key@
                                == k2 by {
                            let oj = choose|oj: int|
                                0 <= oj < old_slots.len() && #[trigger] old_slots[oj].key@ == k2;
                            assert(oj != i);
                            let j = if oj < i { oj } else { oj - 1 };
                            assert(self.slots@[j] == old_slots[oj]);
                        }
                        assert forall|a: int, b: int|
                            0 <= a < self.slots@.len() && 0 <= b < self.slots@.len() && a
                                != b implies #[trigger] self.slots@[a].key@
                            != #[trigger] self.slots@[b].key@ by {
                            let oa = if a < i { a } else { a + 1 };
                            let ob = if b < i { b } else { b + 1 };
                            assert(self.slots@[a] == old_slots[oa]);
                            assert(self.slots@[b] == old_slots[ob]);
                        }
                        assert forall|k2: KeyModel| #[trigger]
                            self.entries@.contains_key(k2) implies self.index@.contains_key(
                            self.entries@[k2].handle,
                        ) && self.index@[self.entries@[k2].handle] == k2 by {
                            assert(old(self).index@[old(self).entries@[k2].handle] == k2);
                        }
                    },
                    None => {
                        assert(false);
                    },
                }
                true
            },
            None => false,
        }
    }

    /// Evicts the entry for `key` exactly when it exists and is stale at
    /// `now`; its handle leaves the reverse index too. Returns whether it
    /// evicted.
    pub fn remove_if_stale(&mut self, key: &CanonicalRequestKey, now: u64, ttl: u64) -> (evicted:
        bool)
        requires
            old(self).wf(),
        ensures
            final(self).wf(),
            evicted == (old(self).entries().contains_key(key@) && is_stale(
                old(self).entries()[key@],
                now,
                ttl,
            )),
            evicted ==> final(self).entries() == old(self).entries().remove(key@)
                && final(self).index() == old(self).index().remove(
                old(self).entries()[key@].handle,
            ),
            !evicted ==> final(self).entries() == old(self).entries() && final(self).index()
                == old(self).index(),
    {
        match self.lookup(key) {
            Some(r) => {
                if now >= r.created_at && now - r.created_at >= ttl {
                    self.remove_by_handle(r.handle);
                    true
                } else {
                    false
                }
            },
            None => false,
        }
    }

    /// Makes `result` the live entry for `key`. Where `key` already had an
    /// entry (a concurrent resolver got there first), the handle of that
    /// entry leaves the reverse index: it is left to its borrowers and to
    /// later reclamation. A handle is live for one key at most, so an entry
    /// that held `result.handle` before is dropped first.
    pub fn insert(&mut self, key: &CanonicalRequestKey, result: CachedResult)
        requires
            old(self).wf(),
        ensures
            final(self).wf(),
            final(self).entries() == entries_after_insert(
                old(self).entries(),
                old(self).index(),
                key@,
                result,
            ),
            final(self).index() == index_after_insert(
                old(self).entries(),
                old(self).index(),
                key@,
                result,
            ),
    {
        self.remove_by_handle(result.handle);
        let ghost e1 = self.entries@;
        let ghost i1 = self.index@;
        let ghost s1 = self.slots@;
        let ghost k = key@;
        let ghost r1 = self.reverse@;
        let opt = self.find(key);
        match opt {
            Some(i) => {
                let old_h = self.slots[i].result.handle;
                assert(e1.contains_key(s1[i as int].key@));
                assert(e1.contains_key(k) && e1[k].handle == old_h);
                assert(i1.contains_key(old_h));
                self.reverse.remove(&old_h);
                self.slots.set(i, CacheSlot { key: key.duplicate(), result });
                self.entries = Ghost(e1.insert(k, result));
                assert forall|j: int|
                    0 <= j < self.slots@.len() implies #[trigger] self.entries@.contains_key(
                    self.slots@[j].key@,
                ) && self.entries@[self.slots@[j].key@] == self.slots@[j].result by {
                    if j != i {
                        assert(s1[j].key@ != s1[i as int].key@);
                        assert(e1.contains_key(s1[j].key@));
                    }
                }
                assert forall|k2: KeyModel| #[trigger]
                    self.entries@.contains_key(k2) implies exists|j: int|
                    0 <= j < self.slots@.len() && #[trigger] self.slots@[j].key@ == k2 by {
                    if k2 == k {
                        assert(self.slots@[i as int].key@ == k2);
                    } else {
                        let oj = choose|oj: int|
                            0 <= oj < s1.len() && #[trigger] s1[oj].key@ == k2;
                        assert(self.slots@[oj].key@ == k2);
                    }
                }
                assert forall|a: int, b: int|
                    0 <= a < self.slots@.len() && 0 <= b < self.slots@.len() && a
                        != b implies #[trigger] self.slots@[a].key@
                    != #[trigger] self.slots@[b].key@ by {
                    assert(s1[a].key@ != s1[b].key@);
                }
            },
            None => {
                self.slots.push(CacheSlot { key: key.duplicate(), result });
                self.entries = Ghost(e1.insert(k, result));
                let ghost n = s1.len() as int;
                assert forall|j: int|
                    0 <= j < self.slots@.len() implies #[trigger] self.entries@.contains_key(
                    self.slots@[j].key@,
                ) && self.entries@[self.slots@[j].key@] == self.slots@[j].result by {
                    if j != n {
                        assert(e1.contains_key(s1[j].key@));
                    }
                }
                assert forall|k2: KeyModel| #[trigger]
                    self.entries@.contains_key(k2) implies exists|j: int|
                    0 <= j < self.slots@.len() && #[trigger] self.slots@[j].key@ == k2 by {
                    if k2 == k {
                        assert(self.slots@[n].key@ == k2);
                    } else {
                        let oj = choose|oj: int|
                            0 <= oj < s1.len() && #[trigger] s1[oj].key@ == k2;
                        assert(self.slots@[oj].key@ == k2);
                    }
                }
                assert forall|a: int, b: int|
                    0 <= a < self.slots@.len() && 0 <= b < self.slots@.len() && a
                        != b implies #[trigger] self.slots@[a].key@
                    != #[trigger] self.slots@[b].key@ by {
                    if a != n && b != n {
                        assert(s1[a].key@ != s1[b].key@);
                    } else if a == n {
                        assert(e1.contains_key(s1[b].key@));
                    } else {
                        assert(e1.contains_key(s1[a].key@));
                    }
                }
            },
        }
        self.reverse.insert(result.handle, key.duplicate());
        let ghost i2 = if e1.contains_key(k) {
            i1.remove(e1[k].handle)
        } else {
            i1
        };
        self.index = Ghost(i2.insert(result.handle, k));
        assert(!i1.contains_key(result.handle));
        assert forall|h: Handle| #[trigger]
            self.reverse@.contains_key(h) == self.index@.contains_key(h) by {
            assert(r1.contains_key(h) == i1.contains_key(h));
        }
        assert forall|h: Handle| #[trigger]
            self.reverse@.contains_key(h) implies self.reverse@[h]@ == self.index@[h] by {
            if h != result.handle {
                assert(r1.contains_key(h) && r1[h]@ == i1[h]);
            }
        }
        assert forall|h: Handle| #[trigger]
            self.index@.contains_key(h) implies self.entries@.contains_key(self.index@[h])
            && self.entries@[self.index@[h]].handle == h by {
            if h != result.handle {
                assert(i1.contains_key(h));
                assert(e1.contains_key(i1[h]) && e1[i1[h]].handle == h);
            }
        }
        assert forall|k2: KeyModel| #[trigger]
            self.entries@.contains_key(k2) implies self.index@.contains_key(
            self.entries@[k2].handle,
        ) && self.index@[self.entries@[k2].handle] == k2 by {
            if k2 != k {
                assert(e1.contains_key(k2));
                assert(i1.contains_key(e1[k2].handle) && i1[e1[k2].handle] == k2);
            }
        }
        assert(self.entries@ == entries_after_insert(old(self).entries@, old(self).index@, k, result));
        assert(self.index@ =~= index_after_insert(old(self).entries@, old(self).index@, k, result));
    }
}

} // verus!
