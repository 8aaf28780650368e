//! A small embedded catalog store for price-comparison entries.
//!
//! The store keeps `Product` records (a tracked listing at some address with
//! price, brand, type and optional per-unit pricing), resolves the location
//! of its backing file, plans additive schema migrations from an introspected
//! column list, and can swap the backing store atomically at runtime.
//! The host application owns the actual file and database handles; this crate
//! holds the decisions and the record-keeping rules.

pub mod catalog;
pub mod clock;
pub mod errors;
pub mod product;
pub mod schema;
pub mod state;
