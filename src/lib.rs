//! Caching engine for a name-resolution API made of a paired "resolve" and
//! "release" call.
//!
//! Resolve results are cached for a bounded time and shared between callers;
//! each release call is honoured, but the physical free of a result handle is
//! deferred behind a bounded queue so that bursts of resolve/release pairs on
//! the same request keep hitting the cache.
//!
//! The modules, leaf first:
//! - `key`: canonical request keys built from the call's parameters;
//! - `tracker`: per-handle borrow counts;
//! - `queue`: the bounded queue of handles awaiting reclamation;
//! - `cache`: the resolution cache together with its reverse index;
//! - `resolver`: the context that sequences all of the above for the two
//!   intercepted entry points, with the laws that hold across calls.

pub mod key;
pub mod tracker;
pub mod queue;
pub mod cache;
pub mod resolver;
