//! Errors raised on the cache call and scan paths.
//!
//! Planning errors describe a bad query and name the offending argument or
//! identifier; `InvalidCacheState` marks a registry/catalog inconsistency
//! that indicates a bug rather than a bad query.

use vstd::prelude::*;

verus! {

#[verifier::external_type_specification]
#[verifier::external_body]
pub struct ExDataFusionError(datafusion::common::DataFusionError);

/// Why a cache call or scan failed.
#[derive(Debug)]
pub enum CacheCallError {
    /// The first argument was absent or not a string literal.
    MissingTableName,
    /// The second argument was present but not a string literal.
    InvalidCacheNameArgument,
    /// No table of the given name exists; carries the name.
    InvalidTableName(String),
    /// No cache matches the given arguments.
    CacheNotFound,
    /// Registry bookkeeping and the store disagree: an internal fault.
    InvalidCacheState,
    /// A filter referenced a column the table does not have; carries the name.
    InvalidColumnName(String),
    /// The engine failed to lower a filter expression against the schema.
    Lowering(datafusion::common::DataFusionError),
    /// A projection index lies outside the cache schema.
    InvalidProjection,
}

} // verus!
