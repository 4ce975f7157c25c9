//! The table-function resolver: from the call's arguments to a virtual
//! table bound to one specific cache.
//!
//! The first argument must name the table; an optional second names the
//! cache. With no cache name the table must have exactly one cache, which
//! is selected; otherwise resolution fails with a planning error. A
//! successful resolution carries the cache's declared schema, fetched from
//! the registry; a registry that cannot supply it signals an internal
//! fault, not a user error.

use vstd::prelude::*;
use vstd::string::*;
use crate::catalog::Catalog;
use crate::catalog::ColumnDef;
use crate::catalog::DbId;
use crate::catalog::DistinctCacheId;
use crate::catalog::TableDefinition;
use crate::catalog::clone_table_def;
use crate::catalog::column_views;
use crate::catalog::find_cache_by_name;
use crate::catalog::find_db_index;
use crate::catalog::find_table_index;
use crate::errors::CacheCallError;
use crate::registry::DistinctCacheProvider;
use crate::store::DistinctCache;
use crate::catalog::TableId;
use crate::registry::lookup_store;

verus! {

/// The name under which the cache is callable as a table function in SQL.
pub const DISTINCT_CACHE_UDTF_NAME: &'static str = "distinct_cache";

/// The table a call names, located through the catalog.
pub open spec fn located_table(cat: Catalog, db_id: DbId, name: Seq<char>) -> Option<
    TableDefinition,
> {
    match find_db_index(cat.databases@, db_id) {
        None => None,
        Some(di) => match find_table_index(cat.databases@[di].tables@, name) {
            None => None,
            Some(ti) => Some(cat.databases@[di].tables@[ti]),
        },
    }
}

/// The cache a call selects on a table: by name when one was given, else
/// the table's sole cache — ambiguous or absent otherwise.
pub open spec fn chosen_cache(t: TableDefinition, cache_name: Option<Seq<char>>) -> Option<
    DistinctCacheId,
> {
    match cache_name {
        Some(n) => find_cache_by_name(t.distinct_caches@, n),
        None => if t.distinct_caches@.len() == 1 {
            Some(t.distinct_caches@[0].cache_id)
        } else {
            None
        },
    }
}

/// The view of the optional cache-name argument: present and a string,
/// present but not a string, or absent.
pub open spec fn cache_name_arg(args: Seq<Option<String>>) -> Option<Seq<char>>
    recommends
        args.len() >= 2,
{
    match args[1] {
        Some(n) => Some(n@),
        None => None,
    }
}

/// The virtual-table handle a successful call produces: the cache's
/// declared schema and the identity it is bound to.
#[derive(Debug)]
pub struct DistinctCacheFunctionProvider {
    pub schema: Vec<ColumnDef>,
    pub db_id: DbId,
    pub table_def: TableDefinition,
    pub cache_id: DistinctCacheId,
}

/// What resolution returns, for every argument list: each error exactly on
/// its own condition, and a successful binding pinned to the located table,
/// the chosen cache, and the registered store's schema.
pub open spec fn resolve_post(
    args: Seq<Option<String>>,
    cat: Catalog,
    m: Seq<(DbId, Vec<(TableId, Vec<(DistinctCacheId, DistinctCache)>)>)>,
    db_id: DbId,
    r: Result<DistinctCacheFunctionProvider, CacheCallError>,
) -> bool {
    match r {
        Err(CacheCallError::MissingTableName) => args.len() == 0 || args[0] is None,
        Err(CacheCallError::InvalidCacheNameArgument) => args.len() >= 2 && args[0] is Some
            && args[1] is None,
        Err(CacheCallError::InvalidTableName(n)) => {
            &&& args.len() >= 1
            &&& args[0] is Some
            &&& (args.len() < 2 || args[1] is Some)
            &&& n@ == args[0]->Some_0@
            &&& located_table(cat, db_id, n@) is None
        },
        Err(CacheCallError::CacheNotFound) => {
            &&& args.len() >= 1
            &&& args[0] is Some
            &&& (args.len() < 2 || args[1] is Some)
            &&& located_table(cat, db_id, args[0]->Some_0@) is Some
            &&& chosen_cache(
                located_table(cat, db_id, args[0]->Some_0@)->Some_0,
                if args.len() >= 2 {
                    cache_name_arg(args)
                } else {
                    None
                },
            ) is None
        },
        Err(CacheCallError::InvalidCacheState) => {
            &&& args.len() >= 1
            &&& args[0] is Some
            &&& (args.len() < 2 || args[1] is Some)
            &&& located_table(cat, db_id, args[0]->Some_0@) is Some
            &&& chosen_cache(
                located_table(cat, db_id, args[0]->Some_0@)->Some_0,
                if args.len() >= 2 {
                    cache_name_arg(args)
                } else {
                    None
                },
            ) is Some
            &&& lookup_store(
                m,
                db_id,
                located_table(cat, db_id, args[0]->Some_0@)->Some_0.table_id,
                chosen_cache(
                    located_table(cat, db_id, args[0]->Some_0@)->Some_0,
                    if args.len() >= 2 {
                        cache_name_arg(args)
                    } else {
                        None
                    },
                )->Some_0,
            ) is None
        },
        Err(_) => false,
        Ok(b) => {
            let t = located_table(cat, db_id, args[0]->Some_0@)->Some_0;
            let cid = chosen_cache(
                t,
                if args.len() >= 2 {
                    cache_name_arg(args)
                } else {
                    None
                },
            )->Some_0;
            &&& args.len() >= 1
            &&& args[0] is Some
            &&& (args.len() < 2 || args[1] is Some)
            &&& located_table(cat, db_id, args[0]->Some_0@) is Some
            &&& chosen_cache(
                t,
                if args.len() >= 2 {
                    cache_name_arg(args)
                } else {
                    None
                },
            ) is Some
            &&& b.db_id == db_id
            &&& b.cache_id == cid
            &&& b.table_def.table_id == t.table_id
            &&& b.table_def.table_name == t.table_name
            &&& b.table_def.columns@ == t.columns@
            &&& b.table_def.distinct_caches@ == t.distinct_caches@
            &&& lookup_store(m, db_id, t.table_id, cid) is Some
            &&& column_views(b.schema@) == column_views(
                lookup_store(m, db_id, t.table_id, cid)->Some_0.columns@,
            )
        },
    }
}

/// Resolve a call's arguments — each already reduced to its string-literal
/// value, or `None` where the argument was no string literal — against the
/// catalog and the registry.
pub fn resolve_call(
    args: &Vec<Option<String>>,
    provider: &DistinctCacheProvider,
    db_id: DbId,
) -> (r: Result<DistinctCacheFunctionProvider, CacheCallError>)
    ensures
        resolve_post(args@, provider.catalog, provider.cache_map@, db_id, r),
{
    if args.len() == 0 {
        return Err(CacheCallError::MissingTableName);
    }
    let table_name = match &args[0] {
        Some(n) => n,
        None => {
            return Err(CacheCallError::MissingTableName);
        },
    };
    let cache_name: Option<&String> = if args.len() >= 2 {
        match &args[1] {
            Some(n) => Some(n),
            None => {
                return Err(CacheCallError::InvalidCacheNameArgument);
            },
        }
    } else {
        None
    };
    let db = match provider.catalog.db_schema_by_id(db_id) {
        Some(d) => d,
        None => {
            return Err(CacheCallError::InvalidTableName(table_name.clone()));
        },
    };
    let table_def = match db.table_definition(table_name) {
        Some(t) => t,
        None => {
            return Err(CacheCallError::InvalidTableName(table_name.clone()));
        },
    };
    let cache_id = match cache_name {
        Some(n) => match table_def.distinct_cache_by_name(n) {
            Some(c) => c,
            None => {
                return Err(CacheCallError::CacheNotFound);
            },
        },
        None => {
            if table_def.distinct_caches.len() == 1 {
                table_def.distinct_caches[0].cache_id
            } else {
                return Err(CacheCallError::CacheNotFound);
            }
        },
    };
    let schema = match provider.get_cache_schema(db_id, table_def.table_id, cache_id) {
        Some(s) => s,
        None => {
            return Err(CacheCallError::InvalidCacheState);
        },
    };
    Ok(
        DistinctCacheFunctionProvider {
            schema,
            db_id,
            table_def: clone_table_def(table_def),
            cache_id,
        },
    )
}

/// The registered table function: the database it serves and the registry
/// it resolves against.
#[derive(Debug)]
pub struct DistinctCacheFunction {
    pub db_id: DbId,
    pub provider: std::sync::Arc<DistinctCacheProvider>,
}

impl DistinctCacheFunction {
    pub fn new(db_id: DbId, provider: std::sync::Arc<DistinctCacheProvider>) -> (r:
        DistinctCacheFunction)
        ensures
            r.db_id == db_id,
            r.provider == provider,
    {
        DistinctCacheFunction { db_id, provider }
    }
}

} // verus!
