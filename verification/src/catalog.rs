//! The catalog model: identifiers and definitions the query layer reads.
//!
//! Identifiers are opaque, stable small integers assigned by the catalog;
//! all lookups on the query path are by identifier or by name over the
//! definitions the catalog supplied.

use vstd::prelude::*;
use vstd::string::*;

verus! {

#[derive(Clone, Copy, PartialEq, Eq, Structural, Debug)]
pub struct DbId(pub u32);

#[derive(Clone, Copy, PartialEq, Eq, Structural, Debug)]
pub struct TableId(pub u32);

#[derive(Clone, Copy, PartialEq, Eq, Structural, Debug)]
pub struct ColumnId(pub u32);

#[derive(Clone, Copy, PartialEq, Eq, Structural, Debug)]
pub struct DistinctCacheId(pub u32);

/// One column of a table: its stable identifier and its name.
#[derive(Debug)]
pub struct ColumnDef {
    pub id: ColumnId,
    pub name: String,
}

/// One distinct-value cache declared on a table.
#[derive(Debug)]
pub struct DistinctCacheDefinition {
    pub cache_id: DistinctCacheId,
    pub cache_name: String,
}

/// The first column with the given name, if any.
pub open spec fn find_column_id(items: Seq<ColumnDef>, name: Seq<char>) -> Option<ColumnId>
    decreases items.len(),
{
    if items.len() == 0 {
        None
    } else if items[0].name@ == name {
        Some(items[0].id)
    } else {
        find_column_id(items.skip(1), name)
    }
}

/// The first column with the given identifier, if any.
pub open spec fn find_column_name(items: Seq<ColumnDef>, id: ColumnId) -> Option<Seq<char>>
    decreases items.len(),
{
    if items.len() == 0 {
        None
    } else if items[0].id == id {
        Some(items[0].name@)
    } else {
        find_column_name(items.skip(1), id)
    }
}

/// The first cache with the given name, if any.
pub open spec fn find_cache_by_name(
    items: Seq<DistinctCacheDefinition>,
    name: Seq<char>,
) -> Option<DistinctCacheId>
    decreases items.len(),
{
    if items.len() == 0 {
        None
    } else if items[0].cache_name@ == name {
        Some(items[0].cache_id)
    } else {
        find_cache_by_name(items.skip(1), name)
    }
}

pub proof fn lemma_find_column_id_skip(items: Seq<ColumnDef>, name: Seq<char>, i: int)
    requires
        0 <= i <= items.len(),
        forall|k: int| 0 <= k < i ==> (#[trigger] items[k]).name@ != name,
    ensures
        find_column_id(items, name) == find_column_id(items.skip(i), name),
    decreases i,
{
    if i > 0 {
        assert(forall|k: int| 0 <= k < i - 1 ==> (#[trigger] items.skip(1)[k]).name@ != name);
        lemma_find_column_id_skip(items.skip(1), name, i - 1);
        assert(items.skip(1).skip(i - 1) =~= items.skip(i));
    } else {
        assert(items.skip(0) =~= items);
    }
}

pub proof fn lemma_find_column_name_skip(items: Seq<ColumnDef>, id: ColumnId, i: int)
    requires
        0 <= i <= items.len(),
        forall|k: int| 0 <= k < i ==> (#[trigger] items[k]).id != id,
    ensures
        find_column_name(items, id) == find_column_name(items.skip(i), id),
    decreases i,
{
    if i > 0 {
        assert(forall|k: int| 0 <= k < i - 1 ==> (#[trigger] items.skip(1)[k]).id != id);
        lemma_find_column_name_skip(items.skip(1), id, i - 1);
        assert(items.skip(1).skip(i - 1) =~= items.skip(i));
    } else {
        assert(items.skip(0) =~= items);
    }
}

pub proof fn lemma_find_cache_by_name_skip(
    items: Seq<DistinctCacheDefinition>,
    name: Seq<char>,
    i: int,
)
    requires
        0 <= i <= items.len(),
        forall|k: int| 0 <= k < i ==> (#[trigger] items[k]).cache_name@ != name,
    ensures
        find_cache_by_name(items, name) == find_cache_by_name(items.skip(i), name),
    decreases i,
{
    if i > 0 {
        assert(forall|k: int|
            0 <= k < i - 1 ==> (#[trigger] items.skip(1)[k]).cache_name@ != name);
        lemma_find_cache_by_name_skip(items.skip(1), name, i - 1);
        assert(items.skip(1).skip(i - 1) =~= items.skip(i));
    } else {
        assert(items.skip(0) =~= items);
    }
}

/// A table definition: identifier, name, columns, and the distinct-value
/// caches declared on the table.
#[derive(Debug)]
pub struct TableDefinition {
    pub table_id: TableId,
    pub table_name: String,
    pub columns: Vec<ColumnDef>,
    pub distinct_caches: Vec<DistinctCacheDefinition>,
}

impl TableDefinition {
    /// Resolve a column name to its identifier.
    pub fn column_name_to_id(&self, name: &String) -> (r: Option<ColumnId>)
        ensures
            r == find_column_id(self.columns@, name@),
    {
        let mut i: usize = 0;
        while i < self.columns.len()
            invariant
                i <= self.columns.len(),
                forall|k: int| 0 <= k < i ==> (#[trigger] self.columns@[k]).name@ != name@,
            decreases self.columns@.len() - i@,
        {
            if self.columns[i].name.eq(name) {
                let found = self.columns[i].id;
                proof {
                    lemma_find_column_id_skip(self.columns@, name@, i as int);
                    assert(self.columns@.skip(i as int)[0] == self.columns@[i as int]);
                    assert(find_column_id(self.columns@, name@) == Some(found));
                }
                return Some(found);
            }
            i = i + 1;
        }
        proof {
            lemma_find_column_id_skip(self.columns@, name@, i as int);
            assert(self.columns@.skip(i as int).len() == 0);
        }
        None
    }

    /// Resolve a column identifier to its name.
    pub fn column_id_to_name(&self, id: ColumnId) -> (r: Option<String>)
        ensures
            match r {
                Some(s) => find_column_name(self.columns@, id) == Some(s@),
                None => find_column_name(self.columns@, id) is None,
            },
    {
        let mut i: usize = 0;
        while i < self.columns.len()
            invariant
                i <= self.columns.len(),
                forall|k: int| 0 <= k < i ==> (#[trigger] self.columns@[k]).id != id,
            decreases self.columns@.len() - i@,
        {
            if self.columns[i].id == id {
                let found = self.columns[i].name.clone();
                proof {
                    lemma_find_column_name_skip(self.columns@, id, i as int);
                    assert(self.columns@.skip(i as int)[0] == self.columns@[i as int]);
                    assert(find_column_name(self.columns@, id) == Some(found@));
                }
                return Some(found);
            }
            i = i + 1;
        }
        proof {
            lemma_find_column_name_skip(self.columns@, id, i as int);
            assert(self.columns@.skip(i as int).len() == 0);
        }
        None
    }

    /// Resolve a cache name to its identifier among this table's caches.
    pub fn distinct_cache_by_name(&self, name: &String) -> (r: Option<DistinctCacheId>)
        ensures
            r == find_cache_by_name(self.distinct_caches@, name@),
    {
        let mut i: usize = 0;
        while i < self.distinct_caches.len()
            invariant
                i <= self.distinct_caches.len(),
                forall|k: int|
                    0 <= k < i ==> (#[trigger] self.distinct_caches@[k]).cache_name@ != name@,
            decreases self.distinct_caches@.len() - i@,
        {
            if self.distinct_caches[i].cache_name.eq(name) {
                let found = self.distinct_caches[i].cache_id;
                proof {
                    lemma_find_cache_by_name_skip(self.distinct_caches@, name@, i as int);
                    assert(self.distinct_caches@.skip(i as int)[0] == self.distinct_caches@[i
                        as int]);
                    assert(find_cache_by_name(self.distinct_caches@, name@) == Some(found));
                }
                return Some(found);
            }
            i = i + 1;
        }
        proof {
            lemma_find_cache_by_name_skip(self.distinct_caches@, name@, i as int);
            assert(self.distinct_caches@.skip(i as int).len() == 0);
        }
        None
    }
}

/// One database: its identifier and its tables.
#[derive(Debug)]
pub struct DatabaseSchema {
    pub id: DbId,
    pub tables: Vec<TableDefinition>,
}

/// The first table with the given name, by index.
pub open spec fn find_table_index(items: Seq<TableDefinition>, name: Seq<char>) -> Option<int>
    decreases items.len(),
{
    if items.len() == 0 {
        None
    } else if items[0].table_name@ == name {
        Some(0int)
    } else {
        match find_table_index(items.skip(1), name) {
            Some(j) => Some(j + 1),
            None => None,
        }
    }
}

pub proof fn lemma_find_table_index(items: Seq<TableDefinition>, name: Seq<char>)
    ensures
        match find_table_index(items, name) {
            Some(j) => 0 <= j < items.len() && items[j].table_name@ == name && forall|k: int|
                0 <= k < j ==> (#[trigger] items[k]).table_name@ != name,
            None => forall|k: int|
                0 <= k < items.len() ==> (#[trigger] items[k]).table_name@ != name,
        },
    decreases items.len(),
{
    if items.len() > 0 && items[0].table_name@ != name {
        lemma_find_table_index(items.skip(1), name);
        match find_table_index(items.skip(1), name) {
            Some(j) => {
                assert(items[j + 1] == items.skip(1)[j]);
                assert(forall|k: int|
                    1 <= k < j + 1 ==> (#[trigger] items[k]) == items.skip(1)[k - 1]);
            },
            None => {
                assert(forall|k: int|
                    1 <= k < items.len() ==> (#[trigger] items[k]) == items.skip(1)[k - 1]);
            },
        }
    }
}

impl DatabaseSchema {
    /// Resolve a table name to its definition.
    pub fn table_definition(&self, name: &String) -> (r: Option<&TableDefinition>)
        ensures
            match r {
                Some(t) => {
                    &&& find_table_index(self.tables@, name@) is Some
                    &&& *t == self.tables@[find_table_index(self.tables@, name@).unwrap()]
                },
                None => find_table_index(self.tables@, name@) is None,
            },
    {
        let mut i: usize = 0;
        while i < self.tables.len()
            invariant
                i <= self.tables.len(),
                forall|k: int| 0 <= k < i ==> (#[trigger] self.tables@[k]).table_name@ != name@,
            decreases self.tables@.len() - i@,
        {
            if self.tables[i].table_name.eq(name) {
                proof {
                    lemma_find_table_index(self.tables@, name@);
                    match find_table_index(self.tables@, name@) {
                        Some(j) => {
                            if j < i {
                                assert(self.tables@[j].table_name@ != name@);
                            }
                            if j > i {
                                assert(self.tables@[i as int].table_name@ != name@);
                            }
                            assert(j == i);
                        },
                        None => {
                            assert(self.tables@[i as int].table_name@ != name@);
                        },
                    }
                }
                return Some(&self.tables[i]);
            }
            i = i + 1;
        }
        proof {
            lemma_find_table_index(self.tables@, name@);
            if find_table_index(self.tables@, name@) is Some {
                let j = find_table_index(self.tables@, name@).unwrap();
                assert(self.tables@[j].table_name@ != name@);
            }
        }
        None
    }
}

/// The first database with the given identifier, by index.
pub open spec fn find_db_index(items: Seq<DatabaseSchema>, id: DbId) -> Option<int>
    decreases items.len(),
{
    if items.len() == 0 {
        None
    } else if items[0].id == id {
        Some(0int)
    } else {
        match find_db_index(items.skip(1), id) {
            Some(j) => Some(j + 1),
            None => None,
        }
    }
}

pub proof fn lemma_find_db_index(items: Seq<DatabaseSchema>, id: DbId)
    ensures
        match find_db_index(items, id) {
            Some(j) => 0 <= j < items.len() && items[j].id == id && forall|k: int|
                0 <= k < j ==> (#[trigger] items[k]).id != id,
            None => forall|k: int| 0 <= k < items.len() ==> (#[trigger] items[k]).id != id,
        },
    decreases items.len(),
{
    if items.len() > 0 && items[0].id != id {
        lemma_find_db_index(items.skip(1), id);
        match find_db_index(items.skip(1), id) {
            Some(j) => {
                assert(items[j + 1] == items.skip(1)[j]);
                assert(forall|k: int|
                    1 <= k < j + 1 ==> (#[trigger] items[k]) == items.skip(1)[k - 1]);
            },
            None => {
                assert(forall|k: int|
                    1 <= k < items.len() ==> (#[trigger] items[k]) == items.skip(1)[k - 1]);
            },
        }
    }
}

/// The catalog as the query layer sees it: the set of databases.
#[derive(Debug)]
pub struct Catalog {
    pub databases: Vec<DatabaseSchema>,
}

impl Catalog {
    /// Resolve a database identifier to its schema.
    pub fn db_schema_by_id(&self, id: DbId) -> (r: Option<&DatabaseSchema>)
        ensures
            match r {
                Some(d) => {
                    &&& find_db_index(self.databases@, id) is Some
                    &&& *d == self.databases@[find_db_index(self.databases@, id).unwrap()]
                },
                None => find_db_index(self.databases@, id) is None,
            },
    {
        let mut i: usize = 0;
        while i < self.databases.len()
            invariant
                i <= self.databases.len(),
                forall|k: int| 0 <= k < i ==> (#[trigger] self.databases@[k]).id != id,
            decreases self.databases@.len() - i@,
        {
            if self.databases[i].id == id {
                proof {
                    lemma_find_db_index(self.databases@, id);
                    match find_db_index(self.databases@, id) {
                        Some(j) => {
                            if j < i {
                                assert(self.databases@[j].id != id);
                            }
                            if j > i {
                                assert(self.databases@[i as int].id != id);
                            }
                            assert(j == i);
                        },
                        None => {
                            assert(self.databases@[i as int].id != id);
                        },
                    }
                }
                return Some(&self.databases[i]);
            }
            i = i + 1;
        }
        proof {
            lemma_find_db_index(self.databases@, id);
            if find_db_index(self.databases@, id) is Some {
                let j = find_db_index(self.databases@, id).unwrap();
                assert(self.databases@[j].id != id);
            }
        }
        None
    }
}

/// The position of the column with the given identifier, if any.
pub open spec fn find_column_index(items: Seq<ColumnDef>, id: ColumnId) -> Option<int>
    decreases items.len(),
{
    if items.len() == 0 {
        None
    } else if items[0].id == id {
        Some(0int)
    } else {
        match find_column_index(items.skip(1), id) {
            Some(j) => Some(j + 1),
            None => None,
        }
    }
}

pub proof fn lemma_find_column_index(items: Seq<ColumnDef>, id: ColumnId)
    ensures
        match find_column_index(items, id) {
            Some(j) => 0 <= j < items.len() && items[j].id == id && forall|k: int|
                0 <= k < j ==> (#[trigger] items[k]).id != id,
            None => forall|k: int| 0 <= k < items.len() ==> (#[trigger] items[k]).id != id,
        },
    decreases items.len(),
{
    if items.len() > 0 && items[0].id != id {
        lemma_find_column_index(items.skip(1), id);
        match find_column_index(items.skip(1), id) {
            Some(j) => {
                assert(items[j + 1] == items.skip(1)[j]);
                assert(forall|k: int|
                    1 <= k < j + 1 ==> (#[trigger] items[k]) == items.skip(1)[k - 1]);
            },
            None => {
                assert(forall|k: int|
                    1 <= k < items.len() ==> (#[trigger] items[k]) == items.skip(1)[k - 1]);
            },
        }
    }
}

/// Find the position of a column identifier in a column list.
pub fn column_index_of(cols: &Vec<ColumnDef>, id: ColumnId) -> (r: Option<usize>)
    ensures
        match r {
            Some(j) => find_column_index(cols@, id) == Some(j as int),
            None => find_column_index(cols@, id) is None,
        },
{
    proof {
        lemma_find_column_index(cols@, id);
    }
    let mut i: usize = 0;
    while i < cols.len()
        invariant
            i <= cols.len(),
            forall|k: int| 0 <= k < i ==> (#[trigger] cols@[k]).id != id,
        decreases cols@.len() - i@,
    {
        if cols[i].id == id {
            proof {
                lemma_find_column_index(cols@, id);
                match find_column_index(cols@, id) {
                    Some(j) => {
                        if j < i {
                            assert(cols@[j].id != id);
                        }
                        if j > i {
                            assert(cols@[i as int].id != id);
                        }
                        assert(j == i);
                    },
                    None => {
                        assert(cols@[i as int].id != id);
                    },
                }
            }
            return Some(i);
        }
        i = i + 1;
    }
    proof {
        lemma_find_column_index(cols@, id);
        if find_column_index(cols@, id) is Some {
            let j = find_column_index(cols@, id).unwrap();
            assert(cols@[j].id != id);
        }
    }
    None
}

/// The abstract content of a column list: identifier and name views.
pub open spec fn column_views(items: Seq<ColumnDef>) -> Seq<(ColumnId, Seq<char>)> {
    items.map_values(|c: ColumnDef| (c.id, c.name@))
}

/// An element-wise copy of a column list.
pub fn clone_column_defs(cols: &Vec<ColumnDef>) -> (r: Vec<ColumnDef>)
    ensures
        r@ == cols@,
{
    let mut out: Vec<ColumnDef> = Vec::new();
    let mut i: usize = 0;
    while i < cols.len()
        invariant
            i <= cols.len(),
            out@.len() == i,
            forall|k: int| 0 <= k < i ==> #[trigger] out@[k] == cols@[k],
        decreases cols@.len() - i@,
    {
        out.push(ColumnDef { id: cols[i].id, name: cols[i].name.clone() });
        i = i + 1;
    }
    proof {
        assert(out@ =~= cols@);
    }
    out
}

/// An element-wise copy of a cache definition list.
pub fn clone_cache_defs(caches: &Vec<DistinctCacheDefinition>) -> (r: Vec<
    DistinctCacheDefinition,
>)
    ensures
        r@ == caches@,
{
    let mut out: Vec<DistinctCacheDefinition> = Vec::new();
    let mut i: usize = 0;
    while i < caches.len()
        invariant
            i <= caches.len(),
            out@.len() == i,
            forall|k: int| 0 <= k < i ==> #[trigger] out@[k] == caches@[k],
        decreases caches@.len() - i@,
    {
        out.push(
            DistinctCacheDefinition {
                cache_id: caches[i].cache_id,
                cache_name: caches[i].cache_name.clone(),
            },
        );
        i = i + 1;
    }
    proof {
        assert(out@ =~= caches@);
    }
    out
}

/// A structural copy of a table definition; its parts equal the original's.
pub fn clone_table_def(t: &TableDefinition) -> (r: TableDefinition)
    ensures
        r.table_id == t.table_id,
        r.table_name == t.table_name,
        r.columns@ == t.columns@,
        r.distinct_caches@ == t.distinct_caches@,
{
    TableDefinition {
        table_id: t.table_id,
        table_name: t.table_name.clone(),
        columns: clone_column_defs(&t.columns),
        distinct_caches: clone_cache_defs(&t.distinct_caches),
    }
}

} // verus!
