//! An in-memory time-series store.
//!
//! The store keeps timestamped scalar samples, each carrying a set of
//! string key/value tags, and answers point lookups, inclusive range
//! scans, tag-based filters, and aggregate queries over a time window.
//!
//! Sample values are double-precision floats; the store holds and
//! returns them as their IEEE 754 bit patterns (`u64`), so that every
//! query is verified. Callers convert with `f64::to_bits` and
//! `f64::from_bits` at the boundary.

pub mod laws;
pub mod order;
pub mod point;
pub mod store;
pub mod tags;

pub use order::total_order_key;
pub use point::DataPoint;
pub use store::{AggregateResult, AggregateType, Tempus, TempusError};
pub use tags::Tags;
