//! An in-memory storage backend for a build-artifact cache.
//!
//! The backend maps opaque string keys to immutable artifact blobs and keeps a
//! running total of the bytes currently stored. All state sits behind a
//! reader-writer lock shared by every clone of the [`InMemCache`] handle, so
//! concurrent callers serialize on the store and never observe a partially
//! written blob.

pub mod artifact;
pub mod backend;
pub mod laws;
pub mod store;

pub use artifact::{Cache, CacheError, CacheRead, CacheWrite};
pub use backend::InMemCache;
pub use store::InMemCacheStore;
