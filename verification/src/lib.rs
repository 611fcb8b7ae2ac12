//! An in-memory key/value cache with per-entry time-to-live semantics,
//! together with a memoizing wrapper that consults the cache before
//! running a caller-supplied producer and writes back only on success.
//!
//! Time is explicit throughout: every operation takes the current instant
//! as a plain millisecond count, so the whole cache is a deterministic,
//! fully verified data structure. Callers read the clock at the edge and
//! pass the instant in.

pub mod laws;
pub mod store;
pub mod wrapper;

pub use store::CacheEntry;
pub use store::EntryView;
pub use store::TtlStore;
pub use wrapper::Cache;
pub use wrapper::CacheError;
