use std::collections::HashMap;
use vstd::prelude::*;
use vstd::std_specs::hash::group_hash_axioms;
use crate::key::Handle;

verus! {

broadcast use group_hash_axioms;

/// Borrow state of one handle: the number of callers that hold it and have
/// not released it yet, and whether a release call was ever seen for it.
#[derive(Clone, Copy)]
pub struct RefCountEntry {
    pub borrow_count: i64,
    pub release_initiated: bool,
}

/// One more borrow; the count saturates at the largest `i64`.
pub open spec fn count_up(c: i64) -> i64 {
    if c < i64::MAX {
        (c + 1) as i64
    } else {
        c
    }
}

/// One borrow fewer; the count saturates at the smallest `i64`.
pub open spec fn count_down(c: i64) -> i64 {
    if c > i64::MIN {
        (c - 1) as i64
    } else {
        c
    }
}

/// The entry after one more borrow of its handle (a fresh entry starts at 1).
pub open spec fn borrowed_entry(m: Map<Handle, RefCountEntry>, h: Handle) -> RefCountEntry {
    if m.contains_key(h) {
        RefCountEntry { borrow_count: count_up(m[h].borrow_count), ..m[h] }
    } else {
        RefCountEntry { borrow_count: 1, release_initiated: false }
    }
}

/// What the tracker holds after one release call on `h`: an unknown handle
/// changes nothing.
pub open spec fn released_map(m: Map<Handle, RefCountEntry>, h: Handle) -> Map<
    Handle,
    RefCountEntry,
> {
    if m.contains_key(h) {
        m.insert(
            h,
            RefCountEntry { borrow_count: count_down(m[h].borrow_count), release_initiated: true },
        )
    } else {
        m
    }
}

/// Answer of a release call on the tracker.
pub enum ReleaseSignal {
    /// The handle was never borrowed, or was already reclaimed: a logic
    /// error of the caller, reported and otherwise ignored.
    Unknown,
    /// The handle is known; `first` tells whether this was the first release
    /// seen for it, in which case it must be queued for reclamation.
    Known { first: bool },
}

/// Per-handle borrow counts.
pub struct RefTracker {
    entries: HashMap<Handle, RefCountEntry>,
}

impl View for RefTracker {
    type V = Map<Handle, RefCountEntry>;

    closed spec fn view(&self) -> Map<Handle, RefCountEntry> {
        self.entries@
    }
}

impl RefTracker {
    pub fn new() -> (t: RefTracker)
        ensures
            t@ == Map::<Handle, RefCountEntry>::empty(),
    {
        RefTracker { entries: HashMap::new() }
    }

    /// Records one more borrow of `h` and returns its new borrow count.
    pub fn borrow(&mut self, h: Handle) -> (count: i64)
        ensures
            final(self)@ == old(self)@.insert(h, borrowed_entry(old(self)@, h)),
            count == borrowed_entry(old(self)@, h).borrow_count,
    {
        let e = match self.entries.get(&h) {
            Some(e) => {
                let c = if e.borrow_count < i64::MAX {
                    e.borrow_count + 1
                } else {
                    e.borrow_count
                };
                RefCountEntry { borrow_count: c, release_initiated: e.release_initiated }
            },
            None => RefCountEntry { borrow_count: 1, release_initiated: false },
        };
        self.entries.insert(h, e);
        e.borrow_count
    }

    /// Records one release of `h`: its count goes down by one and, the first
    /// time, it is marked as release-initiated.
    pub fn release_one(&mut self, h: Handle) -> (sig: ReleaseSignal)
        ensures
            final(self)@ == released_map(old(self)@, h),
            sig == (if old(self)@.contains_key(h) {
                ReleaseSignal::Known { first: !old(self)@[h].release_initiated }
            } else {
                ReleaseSignal::Unknown
            }),
    {
        match self.entries.get(&h) {
            Some(e) => {
                let first = !e.release_initiated;
                let c = if e.borrow_count > i64::MIN {
                    e.borrow_count - 1
                } else {
                    e.borrow_count
                };
                self.entries.insert(h, RefCountEntry { borrow_count: c, release_initiated: true });
                ReleaseSignal::Known { first }
            },
            None => ReleaseSignal::Unknown,
        }
    }

    /// The borrow count of `h`, or `None` where `h` is not tracked.
    pub fn peek(&self, h: Handle) -> (r: Option<i64>)
        ensures
            r == (if self@.contains_key(h) {
                Some(self@[h].borrow_count)
            } else {
                None
            }),
    {
        match self.entries.get(&h) {
            Some(e) => Some(e.borrow_count),
            None => None,
        }
    }

    /// Forgets `h`; part of its physical reclamation.
    pub fn remove(&mut self, h: Handle)
        ensures
            final(self)@ == old(self)@.remove(h),
    {
        self.entries.remove(&h);
    }
}

} // verus!

verus! {

/// The tracker's contents after `n` borrows of `h`.
pub open spec fn borrowed_times(m: Map<Handle, RefCountEntry>, h: Handle, n: nat) -> Map<
    Handle,
    RefCountEntry,
>
    decreases n,
{
    if n == 0 {
        m
    } else {
        let p = borrowed_times(m, h, (n - 1) as nat);
        p.insert(h, borrowed_entry(p, h))
    }
}

/// The tracker's contents after `n` release calls on `h`.
pub open spec fn released_times(m: Map<Handle, RefCountEntry>, h: Handle, n: nat) -> Map<
    Handle,
    RefCountEntry,
>
    decreases n,
{
    if n == 0 {
        m
    } else {
        released_map(released_times(m, h, (n - 1) as nat), h)
    }
}

proof fn lemma_borrowed_times(m: Map<Handle, RefCountEntry>, h: Handle, n: nat)
    requires
        !m.contains_key(h),
        1 <= n <= i64::MAX,
    ensures
        borrowed_times(m, h, n).contains_key(h),
        borrowed_times(m, h, n)[h] == (RefCountEntry { borrow_count: n as i64, release_initiated: false }),
    decreases n,
{
    let p = borrowed_times(m, h, (n - 1) as nat);
    if n > 1 {
        lemma_borrowed_times(m, h, (n - 1) as nat);
        assert(p[h].borrow_count < i64::MAX);
    } else {
        assert(p == m);
    }
    assert(borrowed_times(m, h, n) == p.insert(h, borrowed_entry(p, h)));
}

proof fn lemma_released_times(m: Map<Handle, RefCountEntry>, h: Handle, k: nat)
    requires
        m.contains_key(h),
        k <= m[h].borrow_count,
    ensures
        released_times(m, h, k).contains_key(h),
        released_times(m, h, k)[h].borrow_count == m[h].borrow_count - k,
        k > 0 ==> released_times(m, h, k)[h].release_initiated,
    decreases k,
{
    if k > 0 {
        lemma_released_times(m, h, (k - 1) as nat);
    }
}

/// Borrow accounting: starting from an untracked handle, `n` borrows
/// followed by `k <= n` releases leave its count at `n - k`, so it is still
/// borrowed before the `n`-th release and at zero exactly after it; the entry
/// is marked release-initiated from the first release on.
pub proof fn lemma_borrow_accounting(m: Map<Handle, RefCountEntry>, h: Handle, n: nat, k: nat)
    requires
        !m.contains_key(h),
        1 <= n <= i64::MAX,
        k <= n,
    ensures
        released_times(borrowed_times(m, h, n), h, k).contains_key(h),
        released_times(borrowed_times(m, h, n), h, k)[h].borrow_count == n - k,
        k > 0 ==> released_times(borrowed_times(m, h, n), h, k)[h].release_initiated,
        k < n ==> released_times(borrowed_times(m, h, n), h, k)[h].borrow_count > 0,
{
    lemma_borrowed_times(m, h, n);
    lemma_released_times(borrowed_times(m, h, n), h, k);
}

} // verus!
