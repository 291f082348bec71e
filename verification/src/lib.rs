//! An in-process, append-only blob arena.
//!
//! Byte payloads of arbitrary size are exchanged for small, value-typed
//! handles. Payloads live on fixed-capacity pages; pages whose payloads have
//! all been acknowledged or have aged out are reclaimed in bulk after a decay
//! window, and their identifiers are recycled through a min-ordered free list.
//! A per-page generation tag keeps recycled identifiers from ever serving
//! stale handles.

pub mod backend;
pub mod clock;
pub mod free_list;
pub mod lifecycle;
pub mod page;
pub mod profiling;
pub mod store;
pub mod types;

pub use lifecycle::BlobStoreLifecycleExt;
pub use profiling::{ProfileStats, Profiler};
pub use store::{BlobStats, PinnedBlobStore};
pub use types::{BlobError, BlobHandle, Config};
