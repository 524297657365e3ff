use vstd::prelude::*;
use crate::cache::{
    entries_after_insert, index_after_insert, index_consistent, is_stale, CachedResult,
    ResolutionCache,
};
use crate::key::{canonical, CanonicalRequestKey, Handle, Hints, KeyModel};
use crate::queue::ReclaimQueue;
use crate::tracker::{borrowed_entry, released_map, RefCountEntry, RefTracker, ReleaseSignal};

verus! {

/// What a resolve call learns from the cache before any real call.
pub enum Lookup {
    /// A fresh cached result: hand out `handle` and `status`, make no real call.
    Hit { handle: Handle, status: i32 },
    /// No fresh result: the caller must make the real resolve call.
    Miss,
}

/// What a release call asks of the caller.
pub enum ReleaseOutcome {
    /// The handle was never borrowed, or was already reclaimed: a logic error
    /// to report; nothing else happens.
    UnknownHandle,
    /// Nothing is to be freed now.
    Retained,
    /// The oldest queued handle left the queue while still borrowed. It is
    /// not freed, and it will not be queued again.
    Stranded { handle: Handle },
    /// The oldest queued handle is no longer borrowed and has been forgotten
    /// by the cache and the tracker: the caller must now make the real
    /// release call on it.
    Reclaim { handle: Handle },
}

/// The single long-lived context behind the two entry points: configuration,
/// resolution cache with its reverse index, borrow tracker and reclamation
/// queue. The caller serialises all calls on it.
pub struct Resolver {
    ttl_ms: u64,
    defaults: Hints,
    cache: ResolutionCache,
    tracker: RefTracker,
    queue: ReclaimQueue,
}

impl Resolver {
    /// The time-to-live of a cached result, in milliseconds.
    pub closed spec fn ttl(&self) -> u64 {
        self.ttl_ms
    }

    /// The bound of the reclamation queue.
    pub closed spec fn capacity(&self) -> usize {
        self.queue.spec_capacity()
    }

    /// The hints that stand for an absent hint structure.
    pub closed spec fn defaults(&self) -> Hints {
        self.defaults
    }

    /// The live cached result of each canonical key.
    pub closed spec fn entries(&self) -> Map<KeyModel, CachedResult> {
        self.cache.entries()
    }

    /// The key that owns each live handle.
    pub closed spec fn index(&self) -> Map<Handle, KeyModel> {
        self.cache.index()
    }

    /// The borrow state of each tracked handle.
    pub closed spec fn counts(&self) -> Map<Handle, RefCountEntry> {
        self.tracker@
    }

    /// The handles awaiting reclamation, oldest first.
    pub closed spec fn pending(&self) -> Seq<Handle> {
        self.queue@
    }

    /// Well-formedness: the cache is well formed, the queue holds at most
    /// `capacity` handles, each at most once, and each of them is tracked
    /// and marked release-initiated.
    pub closed spec fn wf(&self) -> bool {
        &&& self.cache.wf()
        &&& self.queue@.len() <= self.queue.spec_capacity()
        &&& forall|i: int, j: int|
            0 <= i < self.queue@.len() && 0 <= j < self.queue@.len() && i != j
                ==> #[trigger] self.queue@[i] != #[trigger] self.queue@[j]
        &&& forall|i: int|
            0 <= i < self.queue@.len() ==> #[trigger] self.tracker@.contains_key(self.queue@[i])
                && self.tracker@[self.queue@[i]].release_initiated
    }

    /// Configuration and the parts of the state that no call changes.
    pub open spec fn same_config(&self, other: &Resolver) -> bool {
        &&& other.ttl() == self.ttl()
        &&& other.capacity() == self.capacity()
        &&& other.defaults() == self.defaults()
    }

    /// What `begin_resolve(key, now)` does to `s`, giving `t` and `r`.
    pub open spec fn begin_resolve_post(
        s: Resolver,
        t: Resolver,
        key: KeyModel,
        now: u64,
        r: Lookup,
    ) -> bool {
        &&& s.same_config(&t)
        &&& t.pending() == s.pending()
        &&& if s.entries().contains_key(key) && !is_stale(s.entries()[key], now, s.ttl()) {
            let e = s.entries()[key];
            &&& r == Lookup::Hit { handle: e.handle, status: e.status }
            &&& t.counts() == s.counts().insert(e.handle, borrowed_entry(s.counts(), e.handle))
            &&& t.entries() == s.entries()
            &&& t.index() == s.index()
        } else if s.entries().contains_key(key) {
            &&& r == Lookup::Miss
            &&& t.counts() == s.counts()
            &&& t.entries() == s.entries().remove(key)
            &&& t.index() == s.index().remove(s.entries()[key].handle)
        } else {
            &&& r == Lookup::Miss
            &&& t.counts() == s.counts()
            &&& t.entries() == s.entries()
            &&& t.index() == s.index()
        }
    }

    /// What `finish_resolve(key, status, handle, now)` does to `s`, giving `t`
    /// and `r`.
    pub open spec fn finish_resolve_post(
        s: Resolver,
        t: Resolver,
        key: KeyModel,
        status: i32,
        handle: Handle,
        now: u64,
        r: i32,
    ) -> bool {
        let res = CachedResult { created_at: now, handle, status };
        &&& r == status
        &&& s.same_config(&t)
        &&& t.pending() == s.pending()
        &&& if status < 0 {
            &&& t.counts() == s.counts()
            &&& t.entries() == s.entries()
            &&& t.index() == s.index()
        } else {
            &&& t.counts() == s.counts().insert(handle, borrowed_entry(s.counts(), handle))
            &&& t.entries() == entries_after_insert(s.entries(), s.index(), key, res)
            &&& t.index() == index_after_insert(s.entries(), s.index(), key, res)
        }
    }

    /// The queue after a release of `h` was recorded, before any eviction.
    pub open spec fn queued_after_release(s: Resolver, h: Handle) -> Seq<Handle> {
        if s.counts().contains_key(h) && !s.counts()[h].release_initiated {
            s.pending().push(h)
        } else {
            s.pending()
        }
    }

    /// What `release(h)` does to `s`, giving `t` and `r`.
    pub open spec fn release_post(s: Resolver, t: Resolver, h: Handle, r: ReleaseOutcome) -> bool {
        let c1 = released_map(s.counts(), h);
        let q1 = Self::queued_after_release(s, h);
        &&& s.same_config(&t)
        &&& if !s.counts().contains_key(h) {
            &&& r == ReleaseOutcome::UnknownHandle
            &&& t.counts() == s.counts()
            &&& t.pending() == s.pending()
            &&& t.entries() == s.entries()
            &&& t.index() == s.index()
        } else if q1.len() <= s.capacity() {
            &&& r == ReleaseOutcome::Retained
            &&& t.counts() == c1
            &&& t.pending() == q1
            &&& t.entries() == s.entries()
            &&& t.index() == s.index()
        } else {
            let d = q1[0];
            &&& t.pending() == q1.drop_first()
            &&& if c1[d].borrow_count > 0 {
                &&& r == ReleaseOutcome::Stranded { handle: d }
                &&& t.counts() == c1
                &&& t.entries() == s.entries()
                &&& t.index() == s.index()
            } else {
                &&& r == ReleaseOutcome::Reclaim { handle: d }
                &&& t.counts() == c1.remove(d)
                &&& t.entries() == (if s.index().contains_key(d) {
                    s.entries().remove(s.index()[d])
                } else {
                    s.entries()
                })
                &&& t.index() == s.index().remove(d)
            }
        }
    }

    /// An empty context with the given time-to-live (milliseconds) and
    /// reclamation-queue bound.
    pub fn new(ttl_ms: u64, capacity: usize) -> (s: Resolver)
        ensures
            s.wf(),
            s.ttl() == ttl_ms,
            s.capacity() == capacity,
            s.defaults().family == 0,
            s.defaults().socktype == 0,
            s.defaults().protocol == 0,
            s.entries() == Map::<KeyModel, CachedResult>::empty(),
            s.index() == Map::<Handle, KeyModel>::empty(),
            s.counts() == Map::<Handle, RefCountEntry>::empty(),
            s.pending() == Seq::<Handle>::empty(),
    {
        Resolver {
            ttl_ms,
            defaults: Hints::defaults(),
            cache: ResolutionCache::new(),
            tracker: RefTracker::new(),
            queue: ReclaimQueue::new(capacity),
        }
    }

    /// The canonical key of a resolve call's parameters, with this context's
    /// defaults for absent hints.
    pub fn canonicalize(
        &self,
        hostname: Option<&[u8]>,
        service: Option<&[u8]>,
        hints: Option<Hints>,
    ) -> (k: CanonicalRequestKey)
        ensures
            k@ == canonical(
                match hostname {
                    Some(s) => Some(s@),
                    None => None,
                },
                match service {
                    Some(s) => Some(s@),
                    None => None,
                },
                hints,
                self.defaults(),
            ),
    {
        CanonicalRequestKey::new(hostname, service, hints, self.defaults)
    }

    /// The borrow count of `h`, or `None` where `h` is not tracked (a
    /// logic-error condition, distinct from a count of zero).
    pub fn borrow_count(&self, h: Handle) -> (r: Option<i64>)
        ensures
            r == (if self.counts().contains_key(h) {
                Some(self.counts()[h].borrow_count)
            } else {
                None
            }),
    {
        self.tracker.peek(h)
    }

    /// The number of handles awaiting reclamation.
    pub fn pending_len(&self) -> (n: usize)
        ensures
            n == self.pending().len(),
    {
        self.queue.len()
    }

    /// The live cached result for `key`, if any, whatever its age.
    pub fn cached(&self, key: &CanonicalRequestKey) -> (r: Option<CachedResult>)
        requires
            self.wf(),
        ensures
            r == (if self.entries().contains_key(key@) {
                Some(self.entries()[key@])
            } else {
                None
            }),
    {
        self.cache.lookup(key)
    }

    /// The first half of a resolve call, under the lock: a fresh cached
    /// result is borrowed and handed out; a stale one is evicted together
    /// with its reverse-index entry. `now` is the monotonic time in
    /// milliseconds.
    pub fn begin_resolve(&mut self, key: &CanonicalRequestKey, now: u64) -> (r: Lookup)
        requires
            old(self).wf(),
        ensures
            final(self).wf(),
            Self::begin_resolve_post(*old(self), *final(self), key@, now, r),
    {
        match self.cache.lookup(key) {
            Some(e) => {
                if now < e.created_at || now - e.created_at < self.ttl_ms {
                    self.tracker.borrow(e.handle);
                    assert forall|i: int| 0 <= i < self.queue@.len() implies #[trigger]
                        self.tracker@.contains_key(self.queue@[i])
                        && self.tracker@[self.queue@[i]].release_initiated by {
                        assert(old(self).tracker@.contains_key(self.queue@[i]));
                    }
                    Lookup::Hit { handle: e.handle, status: e.status }
                } else {
                    self.cache.remove_if_stale(key, now, self.ttl_ms);
                    Lookup::Miss
                }
            },
            None => Lookup::Miss,
        }
    }

    /// The second half of a resolve call, under the lock again, after the
    /// real resolve call returned `status` and, on success, `handle`. A
    /// failure is returned as it is and changes nothing. A success is
    /// borrowed once and becomes the live entry for `key`, superseding an
    /// entry that a concurrent resolver inserted meanwhile. Returns `status`.
    pub fn finish_resolve(
        &mut self,
        key: &CanonicalRequestKey,
        status: i32,
        handle: Handle,
        now: u64,
    ) -> (r: i32)
        requires
            old(self).wf(),
        ensures
            final(self).wf(),
            Self::finish_resolve_post(*old(self), *final(self), key@, status, handle, now, r),
    {
        if status < 0 {
            return status;
        }
        self.tracker.borrow(handle);
        assert forall|i: int| 0 <= i < self.queue@.len() implies #[trigger]
            self.tracker@.contains_key(self.queue@[i])
            && self.tracker@[self.queue@[i]].release_initiated by {
            assert(old(self).tracker@.contains_key(self.queue@[i]));
        }
        self.cache.insert(key, CachedResult { created_at: now, handle, status });
        status
    }

    /// A release call on `h`, under the lock. The release is counted; the
    /// first one seen for `h` queues it. When the queue then holds more than
    /// its bound, its oldest handle leaves it: if still borrowed it is left
    /// alone (stranded), otherwise it is forgotten by the tracker, the cache
    /// and the reverse index, and handed back for the real release call.
    pub fn release(&mut self, h: Handle) -> (r: ReleaseOutcome)
        requires
            old(self).wf(),
        ensures
            final(self).wf(),
            Self::release_post(*old(self), *final(self), h, r),
    {
        match self.tracker.release_one(h) {
            ReleaseSignal::Unknown => ReleaseOutcome::UnknownHandle,
            ReleaseSignal::Known { first } => {
                if first {
                    self.queue.push(h);
                }
                let ghost q1 = self.queue@;
                let ghost c1 = self.tracker@;
                assert(q1 == Self::queued_after_release(*old(self), h));
                assert forall|i: int| 0 <= i < q1.len() implies #[trigger]
                    c1.contains_key(q1[i]) && c1[q1[i]].release_initiated by {
                    if i < old(self).queue@.len() {
                        assert(old(self).tracker@.contains_key(old(self).queue@[i]));
                    }
                }
                assert forall|i: int, j: int|
                    0 <= i < q1.len() && 0 <= j < q1.len() && i != j
                        implies #[trigger] q1[i] != #[trigger] q1[j] by {
                    let n = old(self).queue@.len() as int;
                    if i == n {
                        assert(old(self).tracker@.contains_key(old(self).queue@[j]));
                    } else if j == n {
                        assert(old(self).tracker@.contains_key(old(self).queue@[i]));
                    }
                }
                match self.queue.pop_front_if_over_capacity() {
                    None => ReleaseOutcome::Retained,
                    Some(d) => {
                        assert(c1.contains_key(q1[0]));
                        let still = match self.tracker.peek(d) {
                            Some(c) => c > 0,
                            None => false,
                        };
                        if still {
                            ReleaseOutcome::Stranded { handle: d }
                        } else {
                            self.tracker.remove(d);
                            self.cache.remove_by_handle(d);
                            assert forall|i: int| 0 <= i < self.queue@.len() implies #[trigger]
                                self.tracker@.contains_key(self.queue@[i])
                                && self.tracker@[self.queue@[i]].release_initiated by {
                                assert(self.queue@[i] == q1[i + 1]);
                                assert(q1[i + 1] != q1[0]);
                                assert(c1.contains_key(q1[i + 1]));
                            }
                            ReleaseOutcome::Reclaim { handle: d }
                        }
                    },
                }
            },
        }
    }
}

} // verus!

verus! {

/// A resolve call that missed and cached a successful real result at `t0`,
/// followed by a resolve call for an equivalent key at `t1` within the
/// time-to-live, is answered from the cache with the same handle and status,
/// with no real call.
pub proof fn lemma_cache_hit_after_insert(
    s0: Resolver,
    s1: Resolver,
    s2: Resolver,
    key: KeyModel,
    status: i32,
    handle: Handle,
    t0: u64,
    r1: i32,
    t1: u64,
    r2: Lookup,
)
    requires
        s0.wf(),
        status >= 0,
        Resolver::finish_resolve_post(s0, s1, key, status, handle, t0, r1),
        Resolver::begin_resolve_post(s1, s2, key, t1, r2),
        t0 <= t1,
        t1 - t0 < s0.ttl(),
    ensures
        r2 == (Lookup::Hit { handle, status }),
        r1 == status,
        s2.entries() == s1.entries(),
{
}

/// Two resolve calls for equivalent keys, the first answered from the cache
/// and the second made while the entry is still within its time-to-live,
/// return the same handle and status, with no real call.
pub proof fn lemma_cache_hit_repeats(
    s0: Resolver,
    s1: Resolver,
    s2: Resolver,
    key: KeyModel,
    t0: u64,
    r1: Lookup,
    t1: u64,
    r2: Lookup,
)
    requires
        s0.wf(),
        s0.entries().contains_key(key),
        Resolver::begin_resolve_post(s0, s1, key, t0, r1),
        Resolver::begin_resolve_post(s1, s2, key, t1, r2),
        t0 <= t1,
        t1 - s0.entries()[key].created_at < s0.ttl(),
    ensures
        r1 == (Lookup::Hit {
            handle: s0.entries()[key].handle,
            status: s0.entries()[key].status,
        }),
        r2 == r1,
{
}

/// A resolve call made once a cached result has reached its time-to-live
/// does not hand that result out: it asks for the real call, and the stale
/// entry and its reverse-index entry are gone.
pub proof fn lemma_expired_entry_misses(s: Resolver, t: Resolver, key: KeyModel, now: u64, r: Lookup)
    requires
        s.wf(),
        s.entries().contains_key(key),
        now >= s.entries()[key].created_at + s.ttl(),
        Resolver::begin_resolve_post(s, t, key, now, r),
    ensures
        r == Lookup::Miss,
        !t.entries().contains_key(key),
        !t.index().contains_key(s.entries()[key].handle),
{
}

/// A failed real resolve call creates or updates no cache entry, and changes
/// no other state either.
pub proof fn lemma_failure_not_cached(
    s: Resolver,
    t: Resolver,
    key: KeyModel,
    status: i32,
    handle: Handle,
    now: u64,
    r: i32,
)
    requires
        status < 0,
        Resolver::finish_resolve_post(s, t, key, status, handle, now, r),
    ensures
        r == status,
        t.entries() == s.entries(),
        t.index() == s.index(),
        t.counts() == s.counts(),
        t.pending() == s.pending(),
{
}

/// A release call hands a handle back for the real release only when every
/// borrow of it has been released; that handle then leaves the tracker, the
/// queue and the reverse index.
pub proof fn lemma_reclaim_only_unborrowed(s: Resolver, t: Resolver, h: Handle, r: ReleaseOutcome)
    requires
        s.wf(),
        t.wf(),
        Resolver::release_post(s, t, h, r),
        r is Reclaim,
    ensures
        s.counts().contains_key(r->Reclaim_handle),
        released_map(s.counts(), h)[r->Reclaim_handle].borrow_count <= 0,
        !t.counts().contains_key(r->Reclaim_handle),
        !t.pending().contains(r->Reclaim_handle),
        !t.index().contains_key(r->Reclaim_handle),
{
    let d = r->Reclaim_handle;
    if t.pending().contains(d) {
        let i = choose|i: int| 0 <= i < t.pending().len() && t.pending()[i] == d;
        assert(t.counts().contains_key(t.pending()[i]));
    }
}

/// A handle that is not tracked is never handed back for the real release:
/// once reclaimed, a handle is not reclaimed again unless borrowed anew.
pub proof fn lemma_untracked_never_reclaimed(
    s: Resolver,
    t: Resolver,
    h: Handle,
    r: ReleaseOutcome,
    d: Handle,
)
    requires
        s.wf(),
        Resolver::release_post(s, t, h, r),
        !s.counts().contains_key(d),
    ensures
        r != (ReleaseOutcome::Reclaim { handle: d }),
{
    let q1 = Resolver::queued_after_release(s, h);
    if s.counts().contains_key(h) && q1.len() > s.capacity() {
        if q1[0] == d {
            assert(h != d);
            assert(s.pending().len() > 0);
            assert(s.counts().contains_key(s.pending()[0]));
        }
    }
}

/// At every well-formed state a handle is in the reverse index exactly when
/// it is the live value of some cache entry.
pub proof fn lemma_index_consistent(s: Resolver)
    requires
        s.wf(),
    ensures
        index_consistent(s.entries(), s.index()),
        forall|h: Handle|
            s.index().contains_key(h) <==> exists|k: KeyModel|
                s.entries().contains_key(k) && #[trigger] s.entries()[k].handle == h,
{
    assert forall|h: Handle|
        s.index().contains_key(h) <==> exists|k: KeyModel|
            s.entries().contains_key(k) && #[trigger] s.entries()[k].handle == h by {
        if s.index().contains_key(h) {
            let k = s.index()[h];
            assert(s.entries().contains_key(k) && s.entries()[k].handle == h);
        }
        if exists|k: KeyModel| s.entries().contains_key(k) && #[trigger] s.entries()[k].handle == h {
            let k = choose|k: KeyModel| s.entries().contains_key(k) && #[trigger] s.entries()[k].handle == h;
            assert(s.index().contains_key(s.entries()[k].handle));
        }
    }
}

/// The reclamation queue never holds more than its bound between calls, and
/// at most one handle more while a release call runs.
pub proof fn lemma_queue_bound(s: Resolver, h: Handle)
    requires
        s.wf(),
    ensures
        s.pending().len() <= s.capacity(),
        Resolver::queued_after_release(s, h).len() <= s.capacity() + 1,
{
}

} // verus!
