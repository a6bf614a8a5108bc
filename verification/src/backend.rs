//! The in-memory backend handle: a cloneable, reference-counted handle around
//! a lock-protected entry store, plus an immutable configured capacity.
//!
//! The configured capacity is advisory metadata only: it is reported by
//! `max_size` and never enforced, so the store is unbounded by design and no
//! `put` is rejected or trimmed for exceeding it.

use crate::artifact::{Cache, CacheError, CacheRead, CacheWrite};
use crate::store::InMemCacheStore;
use std::sync::Arc;
use std::time::{Duration, Instant};
use vstd::prelude::*;
use vstd::rwlock::{RwLock, RwLockPredicate};

verus! {

#[verifier::external_type_specification]
#[verifier::external_body]
pub struct ExInstant(Instant);

/// Relies on `std::time::Instant::now`: an opaque reading of a monotonic
/// clock; nothing is assumed of the value.
#[verifier::external_body]
fn clock_now() -> Instant {
    Instant::now()
}

/// Relies on `std::time::Instant::elapsed`: the wall-clock time since
/// `start`; nothing is assumed of the value.
#[verifier::external_body]
fn clock_elapsed(start: &Instant) -> Duration {
    start.elapsed()
}

/// The lock predicate of the backend's store: only a well-formed store may
/// sit inside the lock, and every critical section reestablishes that.
pub struct StoreInvariant {}

impl RwLockPredicate<InMemCacheStore> for StoreInvariant {
    open spec fn inv(self, s: InMemCacheStore) -> bool {
        s.wf()
    }
}

/// A cache that stores entries in memory.
///
/// Every clone of the handle shares the same underlying store through the
/// reference count; a single lock serializes all access to the entries and
/// the byte counter.
#[derive(Clone)]
pub struct InMemCache {
    max_size_bytes: Option<u64>,
    store: Arc<RwLock<InMemCacheStore, StoreInvariant>>,
}

impl InMemCache {
    /// The capacity configured at construction.
    pub closed spec fn max_size_spec(self) -> Option<u64> {
        self.max_size_bytes
    }

    /// A fresh backend around an empty store, with an optional advisory
    /// capacity that is recorded but never enforced.
    pub fn new(max_size_bytes: Option<u64>) -> (r: InMemCache)
        ensures
            r.max_size_spec() == max_size_bytes,
    {
        let store = InMemCacheStore::new();
        InMemCache {
            max_size_bytes,
            store: Arc::new(RwLock::new(store, Ghost(StoreInvariant {  }))),
        }
    }

    /// Look `key` up and hand back a readable view of its blob, or a miss.
    ///
    /// A missing key is never an error. A stored blob that failed its
    /// structural check would surface as [`CacheError::CorruptEntry`], but the
    /// lock invariant rules that out for every blob this backend stores, so
    /// the result is always `Ok`.
    pub fn get(&self, key: &str) -> (r: Result<Cache, CacheError>)
        ensures
            r is Ok,
            r matches Ok(Cache::Hit(cr)) ==> cr.wf(),
    {
        let read_handle = (*self.store).acquire_read();
        let locked = read_handle.borrow();
        let found = locked.lookup(key);
        proof {
            if found is Some {
                locked.lemma_wf_blob_framed(key@);
            }
        }
        read_handle.release_read();
        match found {
            Some(blob) => match CacheRead::from(blob) {
                Ok(cr) => Ok(Cache::Hit(cr)),
                Err(e) => Err(e),
            },
            None => Ok(Cache::Miss),
        }
    }

    /// Finalize `entry` into a blob and store it under `key`, replacing any
    /// prior blob for that key; the accounting drops the replaced blob's size
    /// and gains the new one's. Returns the wall-clock time of the store
    /// mutation, measured from just before it to just after.
    ///
    /// An incomplete writer is rejected as [`CacheError::IncompleteWrite`];
    /// a total that would no longer fit the `u64` accounting is rejected as
    /// [`CacheError::SizeOverflow`]. Either way the store is unchanged.
    pub fn put(&self, key: &str, entry: CacheWrite) -> (r: Result<Duration, CacheError>)
        ensures
            !entry.is_complete() <==> r == Err::<Duration, CacheError>(
                CacheError::IncompleteWrite,
            ),
            r is Err ==> r == Err::<Duration, CacheError>(CacheError::IncompleteWrite) || r
                == Err::<Duration, CacheError>(CacheError::SizeOverflow),
    {
        let blob = match entry.finish() {
            Ok(b) => b,
            Err(e) => {
                return Err(e);
            },
        };
        let start = clock_now();
        let (mut store, write_handle) = (*self.store).acquire_write();
        let stored = store.insert(key, blob);
        let elapsed = clock_elapsed(&start);
        write_handle.release_write(store);
        match stored {
            Ok(()) => Ok(elapsed),
            Err(e) => Err(e),
        }
    }

    /// The fixed label identifying this backend.
    pub fn location(&self) -> (r: String)
        ensures
            r@ == "memory"@,
    {
        "memory".to_owned()
    }

    /// The accumulated byte count, as the accounting reports it. This backend
    /// always keeps accounting, so there is always a value.
    pub fn current_size(&self) -> (r: Option<u64>)
        ensures
            r is Some,
    {
        let read_handle = (*self.store).acquire_read();
        let size = read_handle.borrow().size_bytes();
        read_handle.release_read();
        Some(size)
    }

    /// The capacity configured at construction: advisory only, unaffected by
    /// any mutation, and never compared against the accumulated size.
    pub fn max_size(&self) -> (r: Option<u64>)
        ensures
            r == self.max_size_spec(),
    {
        self.max_size_bytes
    }
}

} // verus!
