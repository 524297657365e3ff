use gai_cache::cache::{CachedResult, ResolutionCache};
use gai_cache::key::{bytes_equal, CanonicalRequestKey, Hints};
use gai_cache::queue::ReclaimQueue;
use gai_cache::resolver::{Lookup, ReleaseOutcome, Resolver};
use gai_cache::tracker::{RefTracker, ReleaseSignal};

fn key_for(r: &Resolver, host: &str) -> CanonicalRequestKey {
    r.canonicalize(Some(host.as_bytes()), None, None)
}

/// Misses, then stores a successful real result.
fn resolve_real(r: &mut Resolver, host: &str, handle: usize, status: i32, now: u64) -> i32 {
    let k = key_for(r, host);
    assert!(matches!(r.begin_resolve(&k, now), Lookup::Miss));
    r.finish_resolve(&k, status, handle, now)
}

#[test]
fn example_scenario_reclaims_once() {
    let mut r = Resolver::new(1000, 1);
    let h1: usize = 0x1000;
    assert_eq!(resolve_real(&mut r, "a.example", h1, 0, 10), 0);
    let k = key_for(&r, "a.example");
    match r.begin_resolve(&k, 20) {
        Lookup::Hit { handle, status } => {
            assert_eq!(handle, h1);
            assert_eq!(status, 0);
        }
        Lookup::Miss => panic!("expected a cache hit"),
    }
    assert_eq!(r.borrow_count(h1), Some(2));
    assert!(matches!(r.release(h1), ReleaseOutcome::Retained));
    assert!(matches!(r.release(h1), ReleaseOutcome::Retained));
    assert_eq!(r.borrow_count(h1), Some(0));
    assert_eq!(r.pending_len(), 1);
    // Queue pressure from another handle evicts and reclaims the first.
    let h2: usize = 0x2000;
    assert_eq!(resolve_real(&mut r, "b.example", h2, 0, 30), 0);
    match r.release(h2) {
        ReleaseOutcome::Reclaim { handle } => assert_eq!(handle, h1),
        _ => panic!("expected reclamation of the first handle"),
    }
    assert_eq!(r.borrow_count(h1), None);
    assert!(r.cached(&k).is_none());
    assert!(matches!(r.release(h1), ReleaseOutcome::UnknownHandle));
    assert_eq!(r.pending_len(), 1);
}

#[test]
fn cache_hit_returns_same_handle_and_status() {
    let mut r = Resolver::new(1000, 10);
    assert_eq!(resolve_real(&mut r, "host", 77, 3, 100), 3);
    let k = key_for(&r, "host");
    for now in [100u64, 500, 1099] {
        match r.begin_resolve(&k, now) {
            Lookup::Hit { handle, status } => {
                assert_eq!(handle, 77);
                assert_eq!(status, 3);
            }
            Lookup::Miss => panic!("expected a cache hit at {}", now),
        }
    }
    assert_eq!(r.borrow_count(77), Some(4));
}

#[test]
fn expired_entry_is_not_handed_out() {
    let mut r = Resolver::new(1000, 10);
    resolve_real(&mut r, "host", 5, 0, 100);
    let k = key_for(&r, "host");
    assert!(matches!(r.begin_resolve(&k, 1100), Lookup::Miss));
    assert!(r.cached(&k).is_none());
    assert_eq!(r.finish_resolve(&k, 0, 6, 1101), 0);
    match r.begin_resolve(&k, 1200) {
        Lookup::Hit { handle, .. } => assert_eq!(handle, 6),
        Lookup::Miss => panic!("expected the refreshed entry"),
    }
}

#[test]
fn failures_are_never_cached() {
    let mut r = Resolver::new(1000, 10);
    let k = key_for(&r, "nowhere");
    assert!(matches!(r.begin_resolve(&k, 0), Lookup::Miss));
    assert_eq!(r.finish_resolve(&k, -2, 9, 0), -2);
    assert!(r.cached(&k).is_none());
    assert_eq!(r.borrow_count(9), None);
    assert!(matches!(r.begin_resolve(&k, 1), Lookup::Miss));
}

#[test]
fn borrow_accounting_frees_after_last_release() {
    let mut r = Resolver::new(1000, 0);
    let n = 3;
    resolve_real(&mut r, "host", 42, 0, 0);
    let k = key_for(&r, "host");
    for _ in 1..n {
        assert!(matches!(r.begin_resolve(&k, 1), Lookup::Hit { .. }));
    }
    assert_eq!(r.borrow_count(42), Some(n));
    // With no room in the queue the first release evicts the handle while it
    // is still borrowed: it is stranded, not freed.
    match r.release(42) {
        ReleaseOutcome::Stranded { handle } => assert_eq!(handle, 42),
        _ => panic!("expected a stranded handle"),
    }
    assert!(matches!(r.release(42), ReleaseOutcome::Retained));
    assert!(matches!(r.release(42), ReleaseOutcome::Retained));
    assert_eq!(r.borrow_count(42), Some(0));
    assert_eq!(r.pending_len(), 0);
}

#[test]
fn reclaim_happens_exactly_once_after_n_releases() {
    let mut r = Resolver::new(1000, 1);
    resolve_real(&mut r, "host", 42, 0, 0);
    let k = key_for(&r, "host");
    assert!(matches!(r.begin_resolve(&k, 1), Lookup::Hit { .. }));
    assert!(matches!(r.begin_resolve(&k, 2), Lookup::Hit { .. }));
    let mut reclaimed = 0;
    for _ in 0..3 {
        if let ReleaseOutcome::Reclaim { .. } = r.release(42) {
            reclaimed += 1;
        }
    }
    assert_eq!(reclaimed, 0);
    resolve_real(&mut r, "other", 43, 0, 3);
    for _ in 0..2 {
        if let ReleaseOutcome::Reclaim { handle } = r.release(43) {
            assert_eq!(handle, 42);
            reclaimed += 1;
        }
    }
    assert_eq!(reclaimed, 1);
    assert_eq!(r.borrow_count(42), None);
}

#[test]
fn superseded_entry_leaves_reverse_index() {
    let mut r = Resolver::new(1000, 1);
    let k = key_for(&r, "race");
    assert!(matches!(r.begin_resolve(&k, 0), Lookup::Miss));
    assert!(matches!(r.begin_resolve(&k, 0), Lookup::Miss));
    r.finish_resolve(&k, 0, 100, 1);
    r.finish_resolve(&k, 0, 200, 2);
    assert_eq!(r.cached(&k).map(|c| c.handle), Some(200));
    // The losing handle is reclaimed without touching the winner's entry.
    r.release(100);
    if let ReleaseOutcome::Reclaim { handle } = r.release(200) {
        assert_eq!(handle, 100);
    } else {
        panic!("expected the losing handle to be reclaimed");
    }
    assert_eq!(r.cached(&k).map(|c| c.handle), Some(200));
}

#[test]
fn unknown_release_is_reported_and_ignored() {
    let mut r = Resolver::new(1000, 0);
    assert!(matches!(r.release(1234), ReleaseOutcome::UnknownHandle));
    assert_eq!(r.pending_len(), 0);
    assert_eq!(r.borrow_count(1234), None);
}

#[test]
fn queue_never_exceeds_capacity() {
    let mut r = Resolver::new(1000, 2);
    for h in 1..10usize {
        resolve_real(&mut r, &format!("h{}", h), h, 0, h as u64);
        r.release(h);
        assert!(r.pending_len() <= 2);
    }
    assert_eq!(r.pending_len(), 2);
}

#[test]
fn canonical_defaults_apply_without_hints() {
    let r = Resolver::new(1000, 1);
    let a = r.canonicalize(None, None, None);
    let b = r.canonicalize(Some(b""), Some(b""), Some(Hints::defaults()));
    assert!(a.equivalent(&b));
    assert_eq!(a.family, 0);
    assert_eq!(a.socktype, 0);
    assert_eq!(a.protocol, 0);
    assert_eq!(a.flags, libc::AI_V4MAPPED | libc::AI_ADDRCONFIG);
    assert!(a.hostname.is_empty());
    let hints = Hints { flags: 1, family: 2, socktype: 3, protocol: 4 };
    let c = r.canonicalize(Some(b"x"), Some(b"80"), Some(hints));
    assert_eq!((c.flags, c.family, c.socktype, c.protocol), (1, 2, 3, 4));
    assert_eq!(c.hostname, b"x".to_vec());
    assert_eq!(c.service, b"80".to_vec());
    assert!(!c.equivalent(&a));
}

#[test]
fn hint_defaults_come_from_libc() {
    let d = Hints::defaults();
    assert_eq!(d.family, libc::AF_UNSPEC);
    assert_ne!(d.flags, 0);
    assert_eq!(d.flags, libc::AI_V4MAPPED | libc::AI_ADDRCONFIG);
}

#[test]
fn different_service_is_a_different_key() {
    let mut r = Resolver::new(1000, 1);
    let k80 = r.canonicalize(Some(b"h"), Some(b"80"), None);
    let k443 = r.canonicalize(Some(b"h"), Some(b"443"), None);
    assert!(matches!(r.begin_resolve(&k80, 0), Lookup::Miss));
    r.finish_resolve(&k80, 0, 1, 0);
    assert!(matches!(r.begin_resolve(&k443, 1), Lookup::Miss));
}

#[test]
fn bytes_equal_compares_contents() {
    assert!(bytes_equal(b"", b""));
    assert!(bytes_equal(b"abc", b"abc"));
    assert!(!bytes_equal(b"abc", b"abd"));
    assert!(!bytes_equal(b"ab", b"abc"));
}

#[test]
fn tracker_counts_borrows_and_releases() {
    let mut t = RefTracker::new();
    assert_eq!(t.borrow(5), 1);
    assert_eq!(t.borrow(5), 2);
    assert!(matches!(t.release_one(5), ReleaseSignal::Known { first: true }));
    assert!(matches!(t.release_one(5), ReleaseSignal::Known { first: false }));
    assert_eq!(t.peek(5), Some(0));
    assert!(matches!(t.release_one(6), ReleaseSignal::Unknown));
    assert_eq!(t.peek(6), None);
    t.remove(5);
    assert_eq!(t.peek(5), None);
}

#[test]
fn queue_pops_only_over_capacity() {
    let mut q = ReclaimQueue::new(2);
    q.push(1);
    q.push(2);
    assert_eq!(q.pop_front_if_over_capacity(), None);
    q.push(3);
    assert_eq!(q.pop_front_if_over_capacity(), Some(1));
    assert_eq!(q.len(), 2);
    assert_eq!(q.capacity(), 2);
}

#[test]
fn cache_removes_only_stale_entries() {
    let r = Resolver::new(1000, 1);
    let k = key_for(&r, "s");
    let mut c = ResolutionCache::new();
    c.insert(&k, CachedResult { created_at: 100, handle: 8, status: 0 });
    assert!(!c.remove_if_stale(&k, 1099, 1000));
    assert!(c.lookup(&k).is_some());
    assert!(c.remove_if_stale(&k, 1100, 1000));
    assert!(c.lookup(&k).is_none());
    assert!(!c.remove_by_handle(8));
}

#[test]
fn cache_remove_by_handle_drops_owner() {
    let r = Resolver::new(1000, 1);
    let k = key_for(&r, "s");
    let mut c = ResolutionCache::new();
    c.insert(&k, CachedResult { created_at: 0, handle: 8, status: 1 });
    assert!(c.remove_by_handle(8));
    assert!(c.lookup(&k).is_none());
}
