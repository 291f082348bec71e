//! The wall clock.
//!
//! Every time-dependent operation of the library exists in two forms: one
//! that takes the current time in milliseconds as an argument and carries an
//! exact contract, and one that reads the clock here and delegates. Nothing
//! is assumed about the value the clock returns.

use vstd::prelude::*;

verus! {

/// Milliseconds since the UNIX epoch, or 0 if the system clock reads earlier
/// than the epoch.
///
/// Relies on std::time::SystemTime::now and duration_since: the wall clock,
/// of which nothing is promised.
#[verifier::external_body]
pub fn now_millis() -> u64 {
    match std::time::SystemTime::now().duration_since(std::time::UNIX_EPOCH) {
        Ok(d) => d.as_millis() as u64,
        Err(_) => 0,
    }
}

} // verus!
