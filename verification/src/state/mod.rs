//! Durable state: the write-ahead log of work and acknowledgements, and the
//! journal of work that exhausted its retries.
pub mod wal;
pub mod failed;
pub mod ndjson;

use vstd::prelude::*;

verus! {

/// Marker for persistent state stores.
pub trait StateStore: Send + Sync {
}

} // verus!
