//! The cache registry: the single point of truth for which distinct-value
//! caches exist and for reading them on the query path.
//!
//! The registry holds a three-level mapping — database, table, cache — to
//! the in-memory stores, beside the catalog that names them. A scan locates
//! the store and materializes its rows under the extracted constraints; a
//! cache that has disappeared since resolution yields zero rows, never an
//! error, because cache lifecycle is independent of query lifecycle.

use vstd::prelude::*;
use vstd::string::*;
use crate::catalog::Catalog;
use crate::catalog::ColumnDef;
use crate::catalog::DbId;
use crate::catalog::DistinctCacheId;
use crate::catalog::TableId;
use crate::catalog::clone_column_defs;
use crate::catalog::column_views;
use crate::constraints::ConstraintMap;
use crate::store::DistinctCache;
use crate::store::limited_rows;
use crate::store::matching_rows;
use crate::store::proj_view;
use crate::store::project_rows;
use crate::store::row_views;

verus! {

/// The caches of one table, by cache identifier.
pub open spec fn find_stores(
    items: Seq<(DistinctCacheId, DistinctCache)>,
    id: DistinctCacheId,
) -> Option<DistinctCache>
    decreases items.len(),
{
    if items.len() == 0 {
        None
    } else if items[0].0 == id {
        Some(items[0].1)
    } else {
        find_stores(items.skip(1), id)
    }
}

/// The cache map of one database, by table identifier.
pub open spec fn find_tables(
    items: Seq<(TableId, Vec<(DistinctCacheId, DistinctCache)>)>,
    id: TableId,
) -> Option<Vec<(DistinctCacheId, DistinctCache)>>
    decreases items.len(),
{
    if items.len() == 0 {
        None
    } else if items[0].0 == id {
        Some(items[0].1)
    } else {
        find_tables(items.skip(1), id)
    }
}

/// The cache map of one database in the registry, by database identifier.
pub open spec fn find_dbs(
    items: Seq<(DbId, Vec<(TableId, Vec<(DistinctCacheId, DistinctCache)>)>)>,
    id: DbId,
) -> Option<Vec<(TableId, Vec<(DistinctCacheId, DistinctCache)>)>>
    decreases items.len(),
{
    if items.len() == 0 {
        None
    } else if items[0].0 == id {
        Some(items[0].1)
    } else {
        find_dbs(items.skip(1), id)
    }
}

/// The store registered under a database, table, and cache identifier.
pub open spec fn lookup_store(
    m: Seq<(DbId, Vec<(TableId, Vec<(DistinctCacheId, DistinctCache)>)>)>,
    db: DbId,
    table: TableId,
    cache: DistinctCacheId,
) -> Option<DistinctCache> {
    match find_dbs(m, db) {
        None => None,
        Some(tables) => match find_tables(tables@, table) {
            None => None,
            Some(stores) => find_stores(stores@, cache),
        },
    }
}

pub proof fn lemma_find_stores_skip(
    items: Seq<(DistinctCacheId, DistinctCache)>,
    id: DistinctCacheId,
    i: int,
)
    requires
        0 <= i <= items.len(),
        forall|k: int| 0 <= k < i ==> (#[trigger] items[k]).0 != id,
    ensures
        find_stores(items, id) == find_stores(items.skip(i), id),
    decreases i,
{
    if i > 0 {
        assert(forall|k: int| 0 <= k < i - 1 ==> (#[trigger] items.skip(1)[k]).0 != id);
        lemma_find_stores_skip(items.skip(1), id, i - 1);
        assert(items.skip(1).skip(i - 1) =~= items.skip(i));
    } else {
        assert(items.skip(0) =~= items);
    }
}

pub proof fn lemma_find_tables_skip(
    items: Seq<(TableId, Vec<(DistinctCacheId, DistinctCache)>)>,
    id: TableId,
    i: int,
)
    requires
        0 <= i <= items.len(),
        forall|k: int| 0 <= k < i ==> (#[trigger] items[k]).0 != id,
    ensures
        find_tables(items, id) == find_tables(items.skip(i), id),
    decreases i,
{
    if i > 0 {
        assert(forall|k: int| 0 <= k < i - 1 ==> (#[trigger] items.skip(1)[k]).0 != id);
        lemma_find_tables_skip(items.skip(1), id, i - 1);
        assert(items.skip(1).skip(i - 1) =~= items.skip(i));
    } else {
        assert(items.skip(0) =~= items);
    }
}

pub proof fn lemma_find_dbs_skip(
    items: Seq<(DbId, Vec<(TableId, Vec<(DistinctCacheId, DistinctCache)>)>)>,
    id: DbId,
    i: int,
)
    requires
        0 <= i <= items.len(),
        forall|k: int| 0 <= k < i ==> (#[trigger] items[k]).0 != id,
    ensures
        find_dbs(items, id) == find_dbs(items.skip(i), id),
    decreases i,
{
    if i > 0 {
        assert(forall|k: int| 0 <= k < i - 1 ==> (#[trigger] items.skip(1)[k]).0 != id);
        lemma_find_dbs_skip(items.skip(1), id, i - 1);
        assert(items.skip(1).skip(i - 1) =~= items.skip(i));
    } else {
        assert(items.skip(0) =~= items);
    }
}

/// Find a table's cache list within one database's map.
fn find_tables_in(
    items: &Vec<(TableId, Vec<(DistinctCacheId, DistinctCache)>)>,
    id: TableId,
) -> (r: Option<&Vec<(DistinctCacheId, DistinctCache)>>)
    ensures
        match r {
            Some(v) => find_tables(items@, id) == Some(*v),
            None => find_tables(items@, id) is None,
        },
{
    let mut i: usize = 0;
    while i < items.len()
        invariant
            i <= items.len(),
            forall|k: int| 0 <= k < i ==> (#[trigger] items@[k]).0 != id,
        decreases items@.len() - i@,
    {
        if items[i].0 == id {
            proof {
                lemma_find_tables_skip(items@, id, i as int);
                assert(items@.skip(i as int)[0] == items@[i as int]);
            }
            return Some(&items[i].1);
        }
        i = i + 1;
    }
    proof {
        lemma_find_tables_skip(items@, id, i as int);
        assert(items@.skip(i as int).len() == 0);
    }
    None
}

/// Find a store within one table's cache list.
fn find_stores_in(
    items: &Vec<(DistinctCacheId, DistinctCache)>,
    id: DistinctCacheId,
) -> (r: Option<&DistinctCache>)
    ensures
        match r {
            Some(v) => find_stores(items@, id) == Some(*v),
            None => find_stores(items@, id) is None,
        },
{
    let mut i: usize = 0;
    while i < items.len()
        invariant
            i <= items.len(),
            forall|k: int| 0 <= k < i ==> (#[trigger] items@[k]).0 != id,
        decreases items@.len() - i@,
    {
        if items[i].0 == id {
            proof {
                lemma_find_stores_skip(items@, id, i as int);
                assert(items@.skip(i as int)[0] == items@[i as int]);
            }
            return Some(&items[i].1);
        }
        i = i + 1;
    }
    proof {
        lemma_find_stores_skip(items@, id, i as int);
        assert(items@.skip(i as int).len() == 0);
    }
    None
}

/// What a scan returns, as a function of the registry state and the call:
/// the store's rows under constraints, projection, and limit; no rows when
/// the store is gone or the projection does not fit its schema.
pub open spec fn scan_result_spec(
    m: Seq<(DbId, Vec<(TableId, Vec<(DistinctCacheId, DistinctCache)>)>)>,
    db: DbId,
    table: TableId,
    cache: DistinctCacheId,
    cons: Seq<(crate::catalog::ColumnId, (bool, Seq<Seq<char>>))>,
    proj: Option<Seq<usize>>,
    limit: Option<usize>,
) -> Seq<Seq<Seq<char>>> {
    match lookup_store(m, db, table, cache) {
        None => Seq::empty(),
        Some(c) => {
            let body = project_rows(
                limited_rows(matching_rows(row_views(c.rows@), cons, c.columns@), limit),
                proj,
            );
            match proj {
                Some(p) => if forall|k: int|
                    0 <= k < p.len() ==> (#[trigger] p[k]) < c.columns@.len() {
                    body
                } else {
                    Seq::empty()
                },
                None => body,
            }
        },
    }
}

pub proof fn lemma_find_dbs_witness(
    items: Seq<(DbId, Vec<(TableId, Vec<(DistinctCacheId, DistinctCache)>)>)>,
    id: DbId,
)
    requires
        find_dbs(items, id) is Some,
    ensures
        exists|i: int|
            0 <= i < items.len() && (#[trigger] items[i]).0 == id && items[i].1 == find_dbs(
                items,
                id,
            )->Some_0,
    decreases items.len(),
{
    if items.len() > 0 && items[0].0 != id {
        lemma_find_dbs_witness(items.skip(1), id);
        let i = choose|i: int|
            0 <= i < items.skip(1).len() && (#[trigger] items.skip(1)[i]).0 == id && items.skip(
                1,
            )[i].1 == find_dbs(items.skip(1), id)->Some_0;
        assert(items[i + 1] == items.skip(1)[i]);
    }
}

pub proof fn lemma_find_tables_witness(
    items: Seq<(TableId, Vec<(DistinctCacheId, DistinctCache)>)>,
    id: TableId,
)
    requires
        find_tables(items, id) is Some,
    ensures
        exists|i: int|
            0 <= i < items.len() && (#[trigger] items[i]).0 == id && items[i].1 == find_tables(
                items,
                id,
            )->Some_0,
    decreases items.len(),
{
    if items.len() > 0 && items[0].0 != id {
        lemma_find_tables_witness(items.skip(1), id);
        let i = choose|i: int|
            0 <= i < items.skip(1).len() && (#[trigger] items.skip(1)[i]).0 == id && items.skip(
                1,
            )[i].1 == find_tables(items.skip(1), id)->Some_0;
        assert(items[i + 1] == items.skip(1)[i]);
    }
}

pub proof fn lemma_find_stores_witness(items: Seq<(DistinctCacheId, DistinctCache)>, id: DistinctCacheId)
    requires
        find_stores(items, id) is Some,
    ensures
        exists|i: int|
            0 <= i < items.len() && (#[trigger] items[i]).0 == id && items[i].1 == find_stores(
                items,
                id,
            )->Some_0,
    decreases items.len(),
{
    if items.len() > 0 && items[0].0 != id {
        lemma_find_stores_witness(items.skip(1), id);
        let i = choose|i: int|
            0 <= i < items.skip(1).len() && (#[trigger] items.skip(1)[i]).0 == id && items.skip(
                1,
            )[i].1 == find_stores(items.skip(1), id)->Some_0;
        assert(items[i + 1] == items.skip(1)[i]);
    }
}

/// The registry: the catalog beside the nested store map. The map is read
/// by every query and written only by the ingest path; the surrounding
/// process guards it with one coarse reader/writer lock, whose read side
/// every operation here represents.
#[derive(Debug)]
pub struct DistinctCacheProvider {
    pub catalog: Catalog,
    pub cache_map: Vec<(DbId, Vec<(TableId, Vec<(DistinctCacheId, DistinctCache)>)>)>,
}

impl DistinctCacheProvider {
    /// The registry's bookkeeping invariant: every registered store is
    /// well-formed (rows parallel to its schema), and the keys at each
    /// level of the map are unique, so a lookup's first match is its only
    /// match.
    pub open spec fn wf(&self) -> bool {
        &&& forall|a: int, b: int, c: int|
            0 <= a < self.cache_map@.len() && 0 <= b < self.cache_map@[a].1@.len() && 0 <= c
                < self.cache_map@[a].1@[b].1@.len() ==> (#[trigger] self.cache_map@[a].1@[b].1@[c]).1.wf()
        &&& forall|a1: int, a2: int|
            0 <= a1 < a2 < self.cache_map@.len() ==> (#[trigger] self.cache_map@[a1]).0 != (
            #[trigger] self.cache_map@[a2]).0
        &&& forall|a: int, b1: int, b2: int|
            0 <= a < self.cache_map@.len() && 0 <= b1 < b2 < self.cache_map@[a].1@.len() ==> (
            #[trigger] self.cache_map@[a].1@[b1]).0 != (#[trigger] self.cache_map@[a].1@[b2]).0
        &&& forall|a: int, b: int, c1: int, c2: int|
            0 <= a < self.cache_map@.len() && 0 <= b < self.cache_map@[a].1@.len() && 0 <= c1
                < c2 < self.cache_map@[a].1@[b].1@.len() ==> (
            #[trigger] self.cache_map@[a].1@[b].1@[c1]).0 != (
            #[trigger] self.cache_map@[a].1@[b].1@[c2]).0
    }

    /// Find one database's cache map in the registry.
    fn find_dbs_in(&self, id: DbId) -> (r: Option<
        &Vec<(TableId, Vec<(DistinctCacheId, DistinctCache)>)>,
    >)
        ensures
            match r {
                Some(v) => find_dbs(self.cache_map@, id) == Some(*v),
                None => find_dbs(self.cache_map@, id) is None,
            },
    {
        let mut i: usize = 0;
        while i < self.cache_map.len()
            invariant
                i <= self.cache_map.len(),
                forall|k: int| 0 <= k < i ==> (#[trigger] self.cache_map@[k]).0 != id,
            decreases self.cache_map@.len() - i@,
        {
            if self.cache_map[i].0 == id {
                proof {
                    lemma_find_dbs_skip(self.cache_map@, id, i as int);
                    assert(self.cache_map@.skip(i as int)[0] == self.cache_map@[i as int]);
                }
                return Some(&self.cache_map[i].1);
            }
            i = i + 1;
        }
        proof {
            lemma_find_dbs_skip(self.cache_map@, id, i as int);
            assert(self.cache_map@.skip(i as int).len() == 0);
        }
        None
    }

    /// Whether a cache is registered under the given identifiers.
    pub fn has_cache(&self, db: DbId, table: TableId, cache: DistinctCacheId) -> (r: bool)
        ensures
            r == (lookup_store(self.cache_map@, db, table, cache) is Some),
    {
        match self.find_dbs_in(db) {
            None => false,
            Some(tables) => match find_tables_in(tables, table) {
                None => false,
                Some(stores) => match find_stores_in(stores, cache) {
                    None => false,
                    Some(_) => true,
                },
            },
        }
    }

    /// The declared output schema of a registered cache, or `None` when no
    /// such cache is registered.
    pub fn get_cache_schema(&self, db: DbId, table: TableId, cache: DistinctCacheId) -> (r:
        Option<Vec<ColumnDef>>)
        ensures
            match r {
                Some(cols) => {
                    &&& lookup_store(self.cache_map@, db, table, cache) is Some
                    &&& column_views(cols@) == column_views(
                        lookup_store(self.cache_map@, db, table, cache)->Some_0.columns@,
                    )
                },
                None => lookup_store(self.cache_map@, db, table, cache) is None,
            },
    {
        match self.find_dbs_in(db) {
            None => None,
            Some(tables) => match find_tables_in(tables, table) {
                None => None,
                Some(stores) => match find_stores_in(stores, cache) {
                    None => None,
                    Some(store) => Some(clone_column_defs(&store.columns)),
                },
            },
        }
    }

    /// Read a registered cache under the given constraints, projection, and
    /// limit. A cache that is no longer registered — removed between
    /// resolution and scan — yields zero rows, not an error.
    pub fn scan(
        &self,
        db: DbId,
        table: TableId,
        cache: DistinctCacheId,
        constraints: &ConstraintMap,
        projection: Option<&Vec<usize>>,
        limit: Option<usize>,
    ) -> (r: Vec<Vec<String>>)
        requires
            self.wf(),
        ensures
            row_views(r@) == scan_result_spec(
                self.cache_map@,
                db,
                table,
                cache,
                constraints.view_entries(),
                proj_view(projection),
                limit,
            ),
    {
        match self.find_dbs_in(db) {
            None => {
                let r: Vec<Vec<String>> = Vec::new();
                proof {
                    assert(row_views(r@) =~= Seq::<Seq<Seq<char>>>::empty());
                }
                r
            },
            Some(tables) => match find_tables_in(tables, table) {
                None => {
                    let r: Vec<Vec<String>> = Vec::new();
                    proof {
                        assert(row_views(r@) =~= Seq::<Seq<Seq<char>>>::empty());
                    }
                    r
                },
                Some(stores) => match find_stores_in(stores, cache) {
                    None => {
                        let r: Vec<Vec<String>> = Vec::new();
                        proof {
                            assert(row_views(r@) =~= Seq::<Seq<Seq<char>>>::empty());
                        }
                        r
                    },
                    Some(c) => {
                        proof {
                            lemma_find_dbs_witness(self.cache_map@, db);
                            let a = choose|a: int|
                                0 <= a < self.cache_map@.len() && (#[trigger] self.cache_map@[a]).0
                                    == db && self.cache_map@[a].1 == find_dbs(
                                    self.cache_map@,
                                    db,
                                )->Some_0;
                            lemma_find_tables_witness(tables@, table);
                            let b = choose|b: int|
                                0 <= b < tables@.len() && (#[trigger] tables@[b]).0 == table
                                    && tables@[b].1 == find_tables(tables@, table)->Some_0;
                            lemma_find_stores_witness(stores@, cache);
                            let cc = choose|cc: int|
                                0 <= cc < stores@.len() && (#[trigger] stores@[cc]).0 == cache
                                    && stores@[cc].1 == find_stores(stores@, cache)->Some_0;
                            assert(self.cache_map@[a].1@[b].1@[cc].1 == *c);
                            assert(c.wf());
                            assert(lookup_store(self.cache_map@, db, table, cache) == Some(*c));
                        }
                        match projection {
                            Some(p) => {
                                let mut ok = true;
                                let mut k: usize = 0;
                                while k < p.len()
                                    invariant
                                        k <= p.len(),
                                        ok == (forall|j: int|
                                            0 <= j < k ==> (#[trigger] p@[j]) < c.columns@.len()),
                                    decreases p@.len() - k@,
                                {
                                    if p[k] >= c.columns.len() {
                                        ok = false;
                                    }
                                    k = k + 1;
                                }
                                if ok {
                                    proof {
                                        assert(proj_view(projection) == Some(p@));
                                        assert forall|j: int|
                                            0 <= j < (proj_view(projection)->Some_0).len()
                                                implies (proj_view(projection)->Some_0)[j]
                                                < c.columns@.len() by {
                                            assert(p@[j] < c.columns@.len());
                                        }
                                    }
                                    let rows = c.to_rows(constraints, projection, limit);
                                    rows
                                } else {
                                    let r: Vec<Vec<String>> = Vec::new();
                                    proof {
                                        assert(proj_view(projection) == Some(p@));
                                        let j = choose|j: int|
                                            0 <= j < p@.len() && !((#[trigger] p@[j])
                                                < c.columns@.len());
                                        assert((proj_view(projection)->Some_0)[j]
                                            >= c.columns@.len());
                                        assert(!(forall|k2: int|
                                            0 <= k2 < (proj_view(projection)->Some_0).len()
                                                ==> (#[trigger] (proj_view(
                                                projection,
                                            )->Some_0)[k2]) < c.columns@.len()));
                                        assert(row_views(r@) =~= Seq::<Seq<Seq<char>>>::empty());
                                    }
                                    r
                                }
                            },
                            None => {
                                let rows = c.to_rows(constraints, projection, limit);
                                rows
                            },
                        }
                    },
                },
            },
        }
    }
}

} // verus!
