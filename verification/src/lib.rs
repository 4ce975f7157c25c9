//! Query-integration layer of a distinct-value cache for a columnar engine:
//! a registry that exposes per-table caches of distinct column values as
//! virtual tables, a conservative predicate extractor that turns filter
//! expressions into per-column constraints, and a scan node that carries the
//! pushed-down constraints for diagnostics. A small rolling-statistics
//! module accompanies it.

pub mod stats;
pub mod text;
pub mod predicate;
pub mod catalog;
pub mod errors;
pub mod constraints;
pub mod store;
pub mod registry;
pub mod scan_node;
pub mod function;
pub mod extract;
pub mod laws;
