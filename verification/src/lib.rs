//! A verified model of a node-local backup endpoint for a sharded,
//! MVCC-ordered key-value store.
//!
//! Given a half-open user key range and a backup timestamp, the endpoint
//! intersects the range with the locally-led regions, clips each
//! intersection, fans the clipped ranges out to snapshot workers, and
//! streams one response per range followed by a single terminal sentinel.

pub mod dispatch;
pub mod endpoint;
pub mod keys;
pub mod laws;
pub mod region;
pub mod worker;
