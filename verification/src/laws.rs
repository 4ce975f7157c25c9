//! Laws of the extraction and resolution layer, stated and proved once over
//! all inputs.

use vstd::prelude::*;
use vstd::string::*;
use crate::catalog::ColumnId;
use crate::catalog::DbId;
use crate::catalog::DistinctCacheId;
use crate::catalog::TableDefinition;
use crate::catalog::TableId;
use crate::catalog::find_column_id;
use crate::constraints::FilterGuarantee;
use crate::constraints::apply_guarantee;
use crate::constraints::build_entries;
use crate::constraints::finish_entries;
use crate::constraints::guarantee_pred;
use crate::constraints::guarantee_vacuous;
use crate::constraints::kept_strings;
use crate::constraints::find_key;
use crate::constraints::lemma_find_key;
use crate::function::DistinctCacheFunctionProvider;
use crate::function::cache_name_arg;
use crate::function::chosen_cache;
use crate::function::located_table;
use crate::function::resolve_post;
use crate::extract::scan_post;
use crate::catalog::Catalog;
use crate::catalog::column_views;
use crate::errors::CacheCallError;
use crate::registry::lookup_store;
use crate::scan_node::DistinctCacheExec;
use crate::store::row_views;
use datafusion::prelude::Expr;
use crate::registry::scan_result_spec;
use crate::store::DistinctCache;
use crate::text::lemma_canonical_values;
use crate::text::lemma_canonical_order_independent;

verus! {

/// A filter list whose sole guarantee speaks of one known column yields a
/// constraint map with exactly that column, carrying the guarantee's
/// polarity and the canonical set of its string literals — which holds
/// exactly the literal values the guarantee implied.
pub proof fn lemma_single_guarantee_extracted(g: FilterGuarantee, t: TableDefinition, id: ColumnId)
    requires
        find_column_id(t.columns@, g.column@) == Some(id),
        !guarantee_vacuous(g),
    ensures
        build_entries(seq![g], t) is Ok,
        finish_entries(build_entries(seq![g], t)->Ok_0) == seq![(id, guarantee_pred(g))],
        forall|y: Seq<char>|
            #[trigger] guarantee_pred(g).1.contains(y) <==> kept_strings(g.literals@).contains(y),
{
    let gs = seq![g];
    assert(gs.drop_last() =~= Seq::<FilterGuarantee>::empty());
    assert(gs.last() == g);
    let empty = Seq::<(ColumnId, Option<(bool, Seq<Seq<char>>)>)>::empty();
    assert(build_entries(Seq::<FilterGuarantee>::empty(), t) == Ok::<
        Seq<(ColumnId, Option<(bool, Seq<Seq<char>>)>)>,
        Seq<char>,
    >(empty));
    assert(build_entries(gs, t) == apply_guarantee(empty, g, t));
    let m = empty.push((id, Some(guarantee_pred(g))));
    assert(build_entries(gs, t) == Ok::<
        Seq<(ColumnId, Option<(bool, Seq<Seq<char>>)>)>,
        Seq<char>,
    >(m));
    assert(m.drop_last() =~= empty);
    assert(m.last() == (id, Some(guarantee_pred(g))));
    assert(finish_entries(empty).len() == 0);
    assert(finish_entries(m) =~= seq![(id, guarantee_pred(g))]);
    lemma_canonical_values(kept_strings(g.literals@));
}

/// Every prefix of a filter list whose guarantees all name known columns
/// builds without error.
pub proof fn lemma_build_ok_prefix(gs: Seq<FilterGuarantee>, t: TableDefinition, i: int)
    requires
        0 <= i <= gs.len(),
        forall|k: int|
            0 <= k < i ==> find_column_id(t.columns@, (#[trigger] gs[k]).column@) is Some,
    ensures
        build_entries(gs.take(i), t) is Ok,
    decreases i,
{
    if i > 0 {
        lemma_build_ok_prefix(gs, t, i - 1);
        assert(gs.take(i).drop_last() =~= gs.take(i - 1));
        assert(gs.take(i).last() == gs[i - 1]);
    } else {
        assert(gs.take(0) =~= Seq::<FilterGuarantee>::empty());
    }
}

/// A filter list referencing an unknown column fails extraction with a
/// planning error naming the first such column.
pub proof fn lemma_unknown_column_errors(gs: Seq<FilterGuarantee>, t: TableDefinition, i: int)
    requires
        0 <= i < gs.len(),
        find_column_id(t.columns@, gs[i].column@) is None,
        forall|k: int|
            0 <= k < i ==> find_column_id(t.columns@, (#[trigger] gs[k]).column@) is Some,
    ensures
        build_entries(gs, t) == Err::<
            Seq<(ColumnId, Option<(bool, Seq<Seq<char>>)>)>,
            Seq<char>,
        >(gs[i].column@),
{
    lemma_build_ok_prefix(gs, t, i);
    assert(gs.take(i + 1).drop_last() =~= gs.take(i));
    assert(gs.take(i + 1).last() == gs[i]);
    assert(build_entries(gs.take(i + 1), t) == Err::<
        Seq<(ColumnId, Option<(bool, Seq<Seq<char>>)>)>,
        Seq<char>,
    >(gs[i].column@));
    crate::constraints::lemma_build_err_extends(gs, t, i + 1);
}

/// A guarantee without any string literal — a numeric equality, say — is
/// dropped without error: the build is the build of the list without it.
pub proof fn lemma_vacuous_guarantee_dropped(gs: Seq<FilterGuarantee>, t: TableDefinition, i: int)
    requires
        0 <= i < gs.len(),
        guarantee_vacuous(gs[i]),
        find_column_id(t.columns@, gs[i].column@) is Some,
    ensures
        build_entries(gs, t) == build_entries(gs.remove(i), t),
    decreases gs.len(),
{
    if i == gs.len() - 1 {
        assert(gs.remove(i) =~= gs.drop_last());
        match build_entries(gs.drop_last(), t) {
            Err(_) => {},
            Ok(m) => {
                assert(apply_guarantee(m, gs.last(), t) == Ok::<
                    Seq<(ColumnId, Option<(bool, Seq<Seq<char>>)>)>,
                    Seq<char>,
                >(m));
            },
        }
    } else {
        assert(gs.remove(i).drop_last() =~= gs.drop_last().remove(i));
        assert(gs.drop_last()[i] == gs[i]);
        lemma_vacuous_guarantee_dropped(gs.drop_last(), t, i);
        assert(gs.remove(i).last() == gs.last());
    }
}

/// On a table with exactly one cache, selecting by no name and selecting by
/// that cache's own name yield the same cache.
pub proof fn lemma_sole_cache_matches_named(t: TableDefinition)
    requires
        t.distinct_caches@.len() == 1,
    ensures
        chosen_cache(t, None) == chosen_cache(t, Some(t.distinct_caches@[0].cache_name@)),
        chosen_cache(t, None) == Some(t.distinct_caches@[0].cache_id),
{
}

/// On a table with no cache, or more than one, selecting without a name
/// fails: the ambiguity is the caller's to resolve.
pub proof fn lemma_unnamed_selection_ambiguous(t: TableDefinition)
    requires
        t.distinct_caches@.len() != 1,
    ensures
        chosen_cache(t, None) is None,
{
}

/// Re-running one scan against an unchanged registry yields the identical
/// outcome: the same success or failure, and on success the same result
/// set, schema, limit, and pushed-down constraint map — no hidden
/// nondeterminism beyond what the store itself defines.
pub proof fn lemma_scan_idempotent(
    b: DistinctCacheFunctionProvider,
    m: Seq<(DbId, Vec<(TableId, Vec<(DistinctCacheId, DistinctCache)>)>)>,
    filters: Seq<Expr>,
    proj: Option<Seq<usize>>,
    limit: Option<usize>,
    r1: Result<(DistinctCacheExec, Vec<Vec<String>>), CacheCallError>,
    r2: Result<(DistinctCacheExec, Vec<Vec<String>>), CacheCallError>,
)
    requires
        scan_post(b, m, filters, proj, limit, r1),
        scan_post(b, m, filters, proj, limit, r2),
    ensures
        r1 is Ok <==> r2 is Ok,
        r1 is Ok && r2 is Ok ==> {
            &&& row_views(r1->Ok_0.1@) == row_views(r2->Ok_0.1@)
            &&& r1->Ok_0.0.schema@ == r2->Ok_0.0.schema@
            &&& r1->Ok_0.0.limit == r2->Ok_0.0.limit
            &&& r1->Ok_0.0.is_projected == r2->Ok_0.0.is_projected
            &&& match (r1->Ok_0.0.predicates, r2->Ok_0.0.predicates) {
                (Some(c1), Some(c2)) => c1.view_entries() == c2.view_entries(),
                (None, None) => true,
                _ => false,
            }
        },
{
    if r1 is Ok {
        lemma_scan_post_agrees(b, m, filters, proj, limit, r1, r2);
    }
    if r2 is Ok {
        lemma_scan_post_agrees(b, m, filters, proj, limit, r2, r1);
    }
    if r1 is Ok && r2 is Ok {
        let (n1, rows1) = r1->Ok_0;
        let (n2, rows2) = r2->Ok_0;
        let store = lookup_store(m, b.db_id, b.table_def.table_id, b.cache_id);
        if store is None {
            assert(row_views(rows1@) =~= row_views(rows2@));
        }
    }
}

/// One direction of the agreement: an `Ok` outcome rules out every error.
proof fn lemma_scan_post_agrees(
    b: DistinctCacheFunctionProvider,
    m: Seq<(DbId, Vec<(TableId, Vec<(DistinctCacheId, DistinctCache)>)>)>,
    filters: Seq<Expr>,
    proj: Option<Seq<usize>>,
    limit: Option<usize>,
    r1: Result<(DistinctCacheExec, Vec<Vec<String>>), CacheCallError>,
    r2: Result<(DistinctCacheExec, Vec<Vec<String>>), CacheCallError>,
)
    requires
        scan_post(b, m, filters, proj, limit, r1),
        scan_post(b, m, filters, proj, limit, r2),
        r1 is Ok,
    ensures
        r2 is Ok,
{
    match r2 {
        Ok(_) => {},
        Err(e) => match e {
            CacheCallError::InvalidProjection => {
                let p = proj->Some_0;
                let k = choose|k: int| 0 <= k < p.len() && (#[trigger] p[k]) >= b.schema@.len();
                assert(p[k] < b.schema@.len());
            },
            _ => {},
        },
    }
}

/// On a table with exactly one cache whose store is registered, calling
/// with the table name alone and calling with the table and that cache's
/// own name both resolve, and to the same binding: same database, same
/// table, same cache, same schema.
pub proof fn lemma_sole_cache_same_binding(
    cat: Catalog,
    m: Seq<(DbId, Vec<(TableId, Vec<(DistinctCacheId, DistinctCache)>)>)>,
    db_id: DbId,
    args1: Seq<Option<String>>,
    args2: Seq<Option<String>>,
    r1: Result<DistinctCacheFunctionProvider, CacheCallError>,
    r2: Result<DistinctCacheFunctionProvider, CacheCallError>,
)
    requires
        args1.len() == 1,
        args1[0] is Some,
        args2.len() == 2,
        args2[0] is Some,
        args2[1] is Some,
        args2[0]->Some_0@ == args1[0]->Some_0@,
        located_table(cat, db_id, args1[0]->Some_0@) is Some,
        located_table(cat, db_id, args1[0]->Some_0@)->Some_0.distinct_caches@.len() == 1,
        args2[1]->Some_0@ == located_table(
            cat,
            db_id,
            args1[0]->Some_0@,
        )->Some_0.distinct_caches@[0].cache_name@,
        lookup_store(
            m,
            db_id,
            located_table(cat, db_id, args1[0]->Some_0@)->Some_0.table_id,
            located_table(cat, db_id, args1[0]->Some_0@)->Some_0.distinct_caches@[0].cache_id,
        ) is Some,
        resolve_post(args1, cat, m, db_id, r1),
        resolve_post(args2, cat, m, db_id, r2),
    ensures
        r1 is Ok,
        r2 is Ok,
        r1->Ok_0.db_id == r2->Ok_0.db_id,
        r1->Ok_0.cache_id == r2->Ok_0.cache_id,
        r1->Ok_0.table_def.table_id == r2->Ok_0.table_def.table_id,
        column_views(r1->Ok_0.schema@) == column_views(r2->Ok_0.schema@),
{
    let t = located_table(cat, db_id, args1[0]->Some_0@)->Some_0;
    let cid = t.distinct_caches@[0].cache_id;
    assert(chosen_cache(t, None) == Some(cid));
    assert(cache_name_arg(args2) == Some(t.distinct_caches@[0].cache_name@));
    assert(chosen_cache(t, cache_name_arg(args2)) == Some(cid));
    match r1 {
        Ok(_) => {},
        Err(e) => match e {
            CacheCallError::MissingTableName => {
                assert(false);
            },
            CacheCallError::InvalidCacheNameArgument => {
                assert(false);
            },
            CacheCallError::InvalidTableName(_) => {
                assert(false);
            },
            CacheCallError::CacheNotFound => {
                assert(false);
            },
            CacheCallError::InvalidCacheState => {
                assert(false);
            },
            _ => {
                assert(false);
            },
        },
    }
    match r2 {
        Ok(_) => {},
        Err(e) => match e {
            CacheCallError::MissingTableName => {
                assert(false);
            },
            CacheCallError::InvalidCacheNameArgument => {
                assert(false);
            },
            CacheCallError::InvalidTableName(_) => {
                assert(false);
            },
            CacheCallError::CacheNotFound => {
                assert(false);
            },
            CacheCallError::InvalidCacheState => {
                assert(false);
            },
            _ => {
                assert(false);
            },
        },
    }
}

/// Some entry carries the column.
pub open spec fn has_key(m: Seq<(ColumnId, Option<(bool, Seq<Seq<char>>)>)>, id: ColumnId) -> bool {
    exists|k: int| 0 <= k < m.len() && (#[trigger] m[k]).0 == id
}

/// Every entry carrying the column is a tombstone.
pub open spec fn dead_key(m: Seq<(ColumnId, Option<(bool, Seq<Seq<char>>)>)>, id: ColumnId) -> bool {
    forall|k: int| 0 <= k < m.len() && (#[trigger] m[k]).0 == id ==> m[k].1 is None
}

/// No two entries carry the same column.
pub open spec fn unique_keys(m: Seq<(ColumnId, Option<(bool, Seq<Seq<char>>)>)>) -> bool {
    forall|k1: int, k2: int|
        0 <= k1 < k2 < m.len() ==> (#[trigger] m[k1]).0 != (#[trigger] m[k2]).0
}

/// One build step keeps the keys unique.
pub proof fn lemma_apply_unique(
    m: Seq<(ColumnId, Option<(bool, Seq<Seq<char>>)>)>,
    g: FilterGuarantee,
    t: TableDefinition,
)
    requires
        unique_keys(m),
        apply_guarantee(m, g, t) is Ok,
    ensures
        unique_keys(apply_guarantee(m, g, t)->Ok_0),
{
    let id = find_column_id(t.columns@, g.column@)->Some_0;
    if !guarantee_vacuous(g) {
        lemma_find_key(m, id);
        match find_key(m, id) {
            Some(j) => {
                let r = m.update(j, (id, Option::<(bool, Seq<Seq<char>>)>::None));
                assert forall|k1: int, k2: int| 0 <= k1 < k2 < r.len() implies r[k1].0
                    != r[k2].0 by {
                    assert(r[k1].0 == m[k1].0 && r[k2].0 == m[k2].0);
                }
            },
            None => {
                let r = m.push((id, Some(guarantee_pred(g))));
                assert forall|k1: int, k2: int| 0 <= k1 < k2 < r.len() implies r[k1].0
                    != r[k2].0 by {
                    if k2 == m.len() {
                        assert(r[k1].0 == m[k1].0);
                        assert(m[k1].0 != id);
                    } else {
                        assert(r[k1].0 == m[k1].0 && r[k2].0 == m[k2].0);
                    }
                }
            },
        }
    }
}

/// Every well-built prefix has unique keys.
pub proof fn lemma_unique_state(gs: Seq<FilterGuarantee>, t: TableDefinition, n: int)
    requires
        0 <= n <= gs.len(),
        build_entries(gs.take(n), t) is Ok,
    ensures
        unique_keys(build_entries(gs.take(n), t)->Ok_0),
    decreases n,
{
    if n == 0 {
        assert(gs.take(0) =~= Seq::<FilterGuarantee>::empty());
    } else {
        assert(gs.take(n).drop_last() =~= gs.take(n - 1));
        assert(gs.take(n).last() == gs[n - 1]);
        lemma_unique_state(gs, t, n - 1);
        lemma_apply_unique(build_entries(gs.take(n - 1), t)->Ok_0, gs[n - 1], t);
    }
}

/// One build step keeps a key present.
pub proof fn lemma_apply_haskey(
    m: Seq<(ColumnId, Option<(bool, Seq<Seq<char>>)>)>,
    g: FilterGuarantee,
    t: TableDefinition,
    id: ColumnId,
)
    requires
        has_key(m, id),
        apply_guarantee(m, g, t) is Ok,
    ensures
        has_key(apply_guarantee(m, g, t)->Ok_0, id),
{
    let gid = find_column_id(t.columns@, g.column@)->Some_0;
    let k = choose|k: int| 0 <= k < m.len() && (#[trigger] m[k]).0 == id;
    if !guarantee_vacuous(g) {
        lemma_find_key(m, gid);
        match find_key(m, gid) {
            Some(j) => {
                let r = m.update(j, (gid, Option::<(bool, Seq<Seq<char>>)>::None));
                if j == k {
                    assert(m[j].0 == gid);
                    assert(r[k].0 == id);
                } else {
                    assert(r[k].0 == id);
                }
            },
            None => {
                let r = m.push((gid, Some(guarantee_pred(g))));
                assert(r[k].0 == id);
            },
        }
    }
}

/// One build step keeps a tombstoned key tombstoned (and present).
pub proof fn lemma_apply_dead(
    m: Seq<(ColumnId, Option<(bool, Seq<Seq<char>>)>)>,
    g: FilterGuarantee,
    t: TableDefinition,
    id: ColumnId,
)
    requires
        has_key(m, id),
        dead_key(m, id),
        apply_guarantee(m, g, t) is Ok,
    ensures
        has_key(apply_guarantee(m, g, t)->Ok_0, id),
        dead_key(apply_guarantee(m, g, t)->Ok_0, id),
{
    lemma_apply_haskey(m, g, t, id);
    let gid = find_column_id(t.columns@, g.column@)->Some_0;
    if !guarantee_vacuous(g) {
        lemma_find_key(m, gid);
        match find_key(m, gid) {
            Some(j) => {
                let r = m.update(j, (gid, Option::<(bool, Seq<Seq<char>>)>::None));
                assert forall|k: int| 0 <= k < r.len() && (#[trigger] r[k]).0 == id implies r[k].1
                    is None by {
                    if k != j {
                        assert(r[k] == m[k]);
                    }
                }
            },
            None => {
                let r = m.push((gid, Some(guarantee_pred(g))));
                if gid == id {
                    let k = choose|k: int| 0 <= k < m.len() && (#[trigger] m[k]).0 == id;
                    assert(false);
                }
                assert forall|k: int| 0 <= k < r.len() && (#[trigger] r[k]).0 == id implies r[k].1
                    is None by {
                    assert(k < m.len());
                    assert(r[k] == m[k]);
                }
            },
        }
    }
}

/// After a non-vacuous guarantee on a known column, the column is present.
pub proof fn lemma_haskey_state(
    gs: Seq<FilterGuarantee>,
    t: TableDefinition,
    i1: int,
    id: ColumnId,
    n: int,
)
    requires
        0 <= i1 < n <= gs.len(),
        find_column_id(t.columns@, gs[i1].column@) == Some(id),
        !guarantee_vacuous(gs[i1]),
        build_entries(gs.take(n), t) is Ok,
    ensures
        has_key(build_entries(gs.take(n), t)->Ok_0, id),
    decreases n,
{
    assert(gs.take(n).drop_last() =~= gs.take(n - 1));
    assert(gs.take(n).last() == gs[n - 1]);
    if n == i1 + 1 {
        let m = build_entries(gs.take(i1), t)->Ok_0;
        lemma_find_key(m, id);
        match find_key(m, id) {
            Some(j) => {
                let r = m.update(j, (id, Option::<(bool, Seq<Seq<char>>)>::None));
                assert(r[j].0 == id);
            },
            None => {
                let r = m.push((id, Some(guarantee_pred(gs[i1]))));
                assert(r[m.len() as int].0 == id);
            },
        }
    } else {
        lemma_haskey_state(gs, t, i1, id, n - 1);
        lemma_apply_haskey(build_entries(gs.take(n - 1), t)->Ok_0, gs[n - 1], t, id);
    }
}

/// After two non-vacuous guarantees on the same column, the column is
/// present only as a tombstone.
pub proof fn lemma_dead_state(
    gs: Seq<FilterGuarantee>,
    t: TableDefinition,
    i1: int,
    i2: int,
    id: ColumnId,
    n: int,
)
    requires
        0 <= i1 < i2 < n <= gs.len(),
        find_column_id(t.columns@, gs[i1].column@) == Some(id),
        find_column_id(t.columns@, gs[i2].column@) == Some(id),
        !guarantee_vacuous(gs[i1]),
        !guarantee_vacuous(gs[i2]),
        build_entries(gs.take(n), t) is Ok,
    ensures
        has_key(build_entries(gs.take(n), t)->Ok_0, id),
        dead_key(build_entries(gs.take(n), t)->Ok_0, id),
    decreases n,
{
    assert(gs.take(n).drop_last() =~= gs.take(n - 1));
    assert(gs.take(n).last() == gs[n - 1]);
    if n == i2 + 1 {
        let m = build_entries(gs.take(i2), t)->Ok_0;
        lemma_unique_state(gs, t, i2);
        lemma_haskey_state(gs, t, i1, id, i2);
        lemma_find_key(m, id);
        match find_key(m, id) {
            Some(j) => {
                let r = m.update(j, (id, Option::<(bool, Seq<Seq<char>>)>::None));
                assert(r[j].0 == id && r[j].1 is None);
                assert forall|k: int| 0 <= k < r.len() && (#[trigger] r[k]).0 == id implies r[k].1
                    is None by {
                    if k != j {
                        assert(m[k].0 == id && m[j].0 == id);
                        if k < j {
                            assert(m[k].0 != m[j].0);
                        } else {
                            assert(m[j].0 != m[k].0);
                        }
                    }
                }
            },
            None => {
                let k = choose|k: int| 0 <= k < m.len() && (#[trigger] m[k]).0 == id;
                assert(false);
            },
        }
    } else {
        lemma_dead_state(gs, t, i1, i2, id, n - 1);
        lemma_apply_dead(build_entries(gs.take(n - 1), t)->Ok_0, gs[n - 1], t, id);
    }
}

/// A tombstoned column does not survive into the finished map.
pub proof fn lemma_finish_no_key(m: Seq<(ColumnId, Option<(bool, Seq<Seq<char>>)>)>, id: ColumnId)
    requires
        dead_key(m, id),
    ensures
        forall|k: int| 0 <= k < finish_entries(m).len() ==> (#[trigger] finish_entries(m)[k]).0 != id,
    decreases m.len(),
{
    if m.len() > 0 {
        assert(forall|k: int|
            0 <= k < m.drop_last().len() ==> #[trigger] m.drop_last()[k] == m[k]);
        assert forall|k: int|
            0 <= k < m.drop_last().len() && (#[trigger] m.drop_last()[k]).0 == id implies m.drop_last()[k].1 is None by {
            assert(m.drop_last()[k] == m[k]);
        }
        lemma_finish_no_key(m.drop_last(), id);
        let rest = finish_entries(m.drop_last());
        match m.last().1 {
            Some(pv) => {
                assert(m[m.len() - 1].0 != id);
                let f = finish_entries(m);
                assert(f == rest.push((m.last().0, pv)));
                assert forall|k: int| 0 <= k < f.len() implies (#[trigger] f[k]).0 != id by {
                    if k < f.len() - 1 {
                        assert(f[k] == rest[k]);
                    } else {
                        assert(f[k] == (m.last().0, pv));
                    }
                }
            },
            None => {
                assert(finish_entries(m) == rest);
            },
        }
    } else {
        assert(finish_entries(m).len() == 0);
    }
}

/// Two independent non-vacuous guarantees on the same column leave no entry
/// for that column: the conflict discards both.
pub proof fn lemma_conflicting_guarantees_discarded(
    gs: Seq<FilterGuarantee>,
    t: TableDefinition,
    i1: int,
    i2: int,
    id: ColumnId,
)
    requires
        0 <= i1 < i2 < gs.len(),
        find_column_id(t.columns@, gs[i1].column@) == Some(id),
        find_column_id(t.columns@, gs[i2].column@) == Some(id),
        !guarantee_vacuous(gs[i1]),
        !guarantee_vacuous(gs[i2]),
        build_entries(gs, t) is Ok,
    ensures
        forall|k: int|
            0 <= k < finish_entries(build_entries(gs, t)->Ok_0).len() ==> (
            #[trigger] finish_entries(build_entries(gs, t)->Ok_0)[k]).0 != id,
{
    assert(gs.take(gs.len() as int) =~= gs);
    lemma_dead_state(gs, t, i1, i2, id, gs.len() as int);
    lemma_finish_no_key(build_entries(gs, t)->Ok_0, id);
}

/// The engine hands a guarantee's literal set over in no particular order;
/// two guarantees of one polarity whose literal lists hold the same string
/// values yield the same predicate, so repeated extraction of one filter
/// cannot differ.
pub proof fn lemma_guarantee_literal_order_blind(g1: FilterGuarantee, g2: FilterGuarantee)
    requires
        g1.kind == g2.kind,
        forall|x: Seq<char>|
            kept_strings(g1.literals@).contains(x) <==> kept_strings(g2.literals@).contains(x),
    ensures
        guarantee_pred(g1) == guarantee_pred(g2),
{
    lemma_canonical_order_independent(kept_strings(g1.literals@), kept_strings(g2.literals@));
}

} // verus!
