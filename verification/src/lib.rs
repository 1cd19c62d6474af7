//! Read-oriented procurement and inventory analytics.
//!
//! The crate models a small relational schema (suppliers, a material
//! catalog, and storage-unit ledger lines) as in-memory tables and offers a
//! catalog of read operations over it: lookups, grouped aggregates, spend
//! totals, inventory valuation and supplier share.  A read-through cache
//! fronts the highest-traffic lookup (supplier name by tax identifier).
//! Monetary quantities are fixed-point integers in minor units.

pub mod cache;
pub mod model;
pub mod outcome;
pub mod queries;
