//! Background maintenance hooks.
//!
//! The verified store is a plain value; periodic cleanup is outside work
//! (a timer, a thread, a weak reference) that a concurrent shell around the
//! store performs by calling `cleanup_acknowledged` on a cadence. This
//! trait is the library's name for that capability: a shell implements it
//! and drives the sweep without extending the store's lifetime.

use vstd::prelude::*;

verus! {

/// Periodic cleanup of a shared blob store.
pub trait BlobStoreLifecycleExt {
    /// Start running cleanup sweeps every `interval_ms` milliseconds until
    /// the store is dropped.
    fn start_cleanup(&self, interval_ms: u64);
}

} // verus!
