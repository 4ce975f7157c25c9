//! The in-memory distinct-value store, as the query layer reads it.
//!
//! A store holds the cache's declared output schema and the distinct value
//! rows observed so far. The one read operation materializes the rows that
//! pass a constraint map, narrowed to a projection and cut at a row limit.

use vstd::prelude::*;
use vstd::string::*;
use crate::catalog::ColumnDef;
use crate::catalog::ColumnId;
use crate::catalog::find_column_index;
use crate::catalog::column_index_of;
use crate::catalog::lemma_find_column_index;
use crate::constraints::ConstraintMap;
use crate::predicate::pred_satisfied;
use crate::text::views_of;

verus! {

/// The abstract content of a row: its values as character sequences.
pub open spec fn row_views(rows: Seq<Vec<String>>) -> Seq<Seq<Seq<char>>> {
    rows.map_values(|r: Vec<String>| views_of(r@))
}

/// Whether one row passes every constraint of the map; a constraint on a
/// column the schema does not carry restricts nothing.
pub open spec fn row_passes(
    row: Seq<Seq<char>>,
    cons: Seq<(ColumnId, (bool, Seq<Seq<char>>))>,
    cols: Seq<ColumnDef>,
) -> bool {
    forall|k: int|
        0 <= k < cons.len() ==> match find_column_index(cols, (#[trigger] cons[k]).0) {
            Some(ci) => pred_satisfied(cons[k].1.0, cons[k].1.1, row[ci]),
            None => true,
        }
}

/// The rows that pass the constraints, in order.
pub open spec fn matching_rows(
    rows: Seq<Seq<Seq<char>>>,
    cons: Seq<(ColumnId, (bool, Seq<Seq<char>>))>,
    cols: Seq<ColumnDef>,
) -> Seq<Seq<Seq<char>>>
    decreases rows.len(),
{
    if rows.len() == 0 {
        Seq::empty()
    } else {
        let rest = matching_rows(rows.drop_last(), cons, cols);
        if row_passes(rows.last(), cons, cols) {
            rest.push(rows.last())
        } else {
            rest
        }
    }
}

/// The first `limit` rows, or all of them with no limit.
pub open spec fn limited_rows(rows: Seq<Seq<Seq<char>>>, limit: Option<usize>) -> Seq<
    Seq<Seq<char>>,
> {
    match limit {
        Some(l) => if rows.len() <= l {
            rows
        } else {
            rows.take(l as int)
        },
        None => rows,
    }
}

/// One row narrowed to the projected column positions.
pub open spec fn project_row(row: Seq<Seq<char>>, proj: Option<Seq<usize>>) -> Seq<Seq<char>> {
    match proj {
        Some(p) => p.map_values(|ix: usize| row[ix as int]),
        None => row,
    }
}

/// All rows narrowed to the projected column positions.
pub open spec fn project_rows(rows: Seq<Seq<Seq<char>>>, proj: Option<Seq<usize>>) -> Seq<
    Seq<Seq<char>>,
> {
    rows.map_values(|r: Seq<Seq<char>>| project_row(r, proj))
}

/// The view of an optional projection argument.
pub open spec fn proj_view(projection: Option<&Vec<usize>>) -> Option<Seq<usize>> {
    match projection {
        Some(p) => Some(p@),
        None => None,
    }
}

/// The distinct-value store of one cache: its declared output schema and
/// the observed value rows, each row parallel to the schema.
#[derive(Debug)]
pub struct DistinctCache {
    pub columns: Vec<ColumnDef>,
    pub rows: Vec<Vec<String>>,
}

impl DistinctCache {
    /// Every row has one value per schema column.
    pub open spec fn wf(&self) -> bool {
        forall|k: int|
            0 <= k < self.rows@.len() ==> (#[trigger] self.rows@[k])@.len()
                == self.columns@.len()
    }

    /// Materialize the rows that pass the constraints, projected and cut at
    /// the limit: exactly `project(limit(matching(rows)))`.
    pub fn to_rows(
        &self,
        constraints: &ConstraintMap,
        projection: Option<&Vec<usize>>,
        limit: Option<usize>,
    ) -> (r: Vec<Vec<String>>)
        requires
            self.wf(),
            match proj_view(projection) {
                Some(p) => forall|k: int| 0 <= k < p.len() ==> (#[trigger] p[k]) < self.columns@.len(),
                None => true,
            },
        ensures
            row_views(r@) == project_rows(
                limited_rows(
                    matching_rows(
                        row_views(self.rows@),
                        constraints.view_entries(),
                        self.columns@,
                    ),
                    limit,
                ),
                proj_view(projection),
            ),
    {
        let mut out: Vec<Vec<String>> = Vec::new();
        let mut i: usize = 0;
        proof {
            assert(row_views(self.rows@).take(0) =~= Seq::<Seq<Seq<char>>>::empty());
            assert(matching_rows(
                row_views(self.rows@).take(0),
                constraints.view_entries(),
                self.columns@,
            ) =~= Seq::<Seq<Seq<char>>>::empty());
            assert(row_views(out@) =~= project_rows(
                limited_rows(
                    matching_rows(
                        row_views(self.rows@).take(0),
                        constraints.view_entries(),
                        self.columns@,
                    ),
                    limit,
                ),
                proj_view(projection),
            ));
        }
        while i < self.rows.len()
            invariant
                i <= self.rows.len(),
                self.wf(),
                match proj_view(projection) {
                    Some(p) => forall|k: int|
                        0 <= k < p.len() ==> (#[trigger] p[k]) < self.columns@.len(),
                    None => true,
                },
                row_views(out@) == project_rows(
                    limited_rows(
                        matching_rows(
                            row_views(self.rows@).take(i as int),
                            constraints.view_entries(),
                            self.columns@,
                        ),
                        limit,
                    ),
                    proj_view(projection),
                ),
            decreases self.rows@.len() - i@,
        {
            let ghost rv = row_views(self.rows@);
            let ghost cons = constraints.view_entries();
            let ghost matched_pre = matching_rows(rv.take(i as int), cons, self.columns@);
            proof {
                assert(rv.take(i + 1).drop_last() =~= rv.take(i as int));
                assert(rv.take(i + 1).last() == rv[i as int]);
                assert(rv[i as int] == views_of(self.rows@[i as int]@));
            }
            let under = match limit {
                Some(l) => out.len() < l,
                None => true,
            };
            if under && self.row_matches(constraints, i) {
                let ghost pre_out = row_views(out@);
                let projected = project_row_vec(&self.rows[i], projection);
                out.push(projected);
                proof {
                    let matched_post = matching_rows(rv.take(i + 1), cons, self.columns@);
                    assert(matched_post == matched_pre.push(rv[i as int]));
                    assert(row_views(out@) =~= pre_out.push(views_of(projected@)));
                    assert(pre_out.len() == limited_rows(matched_pre, limit).len());
                    match limit {
                        Some(l) => {
                            assert(pre_out.len() < l);
                            assert(matched_pre.len() < l);
                            assert(limited_rows(matched_pre, limit) =~= matched_pre);
                            assert(limited_rows(matched_post, limit) =~= matched_pre.push(
                                rv[i as int],
                            ));
                        },
                        None => {
                            assert(limited_rows(matched_post, limit) =~= matched_pre.push(
                                rv[i as int],
                            ));
                        },
                    }
                    assert(limited_rows(matched_pre, limit) =~= matched_pre);
                    assert(views_of(projected@) == project_row(rv[i as int], proj_view(projection)));
                    assert(row_views(out@) =~= project_rows(
                        limited_rows(matched_post, limit),
                        proj_view(projection),
                    ));
                }
            } else {
                proof {
                    let matched_post = matching_rows(rv.take(i + 1), cons, self.columns@);
                    if row_passes(rv[i as int], cons, self.columns@) {
                        assert(matched_post == matched_pre.push(rv[i as int]));
                        match limit {
                            Some(l) => {
                                assert(row_views(out@).len() >= l);
                                assert(limited_rows(matched_pre, limit).len() >= l);
                                assert(matched_pre.len() >= l);
                                assert(limited_rows(matched_post, limit) =~= limited_rows(
                                    matched_pre,
                                    limit,
                                ));
                            },
                            None => {
                                assert(under);
                            },
                        }
                    } else {
                        assert(matched_post == matched_pre);
                    }
                }
            }
            i = i + 1;
        }
        proof {
            assert(row_views(self.rows@).take(i as int) =~= row_views(self.rows@));
        }
        out
    }

    /// Whether row `i` passes every constraint of the map.
    fn row_matches(&self, constraints: &ConstraintMap, i: usize) -> (r: bool)
        requires
            self.wf(),
            i < self.rows@.len(),
        ensures
            r == row_passes(
                views_of(self.rows@[i as int]@),
                constraints.view_entries(),
                self.columns@,
            ),
    {
        let mut k: usize = 0;
        while k < constraints.entries.len()
            invariant
                k <= constraints.entries.len(),
                self.wf(),
                i < self.rows@.len(),
                forall|m: int|
                    0 <= m < k ==> match find_column_index(
                        self.columns@,
                        (#[trigger] constraints.view_entries()[m]).0,
                    ) {
                        Some(ci) => pred_satisfied(
                            constraints.view_entries()[m].1.0,
                            constraints.view_entries()[m].1.1,
                            views_of(self.rows@[i as int]@)[ci],
                        ),
                        None => true,
                    },
            decreases constraints.entries@.len() - k@,
        {
            let key = constraints.entries[k].0;
            proof {
                assert(constraints.view_entries()[k as int] == (
                    constraints.entries@[k as int].0,
                    (
                        constraints.entries@[k as int].1.is_in(),
                        constraints.entries@[k as int].1.values_seq(),
                    ),
                ));
                lemma_find_column_index(self.columns@, key);
            }
            match column_index_of(&self.columns, key) {
                Some(ci) => {
                    let value = &self.rows[i][ci];
                    proof {
                        assert(views_of(self.rows@[i as int]@)[ci as int] == self.rows@[i
                            as int]@[ci as int]@);
                    }
                    if !constraints.entries[k].1.matches_value(value) {
                        proof {
                            assert(find_column_index(
                                self.columns@,
                                constraints.view_entries()[k as int].0,
                            ) == Some(ci as int));
                            assert(!pred_satisfied(
                                constraints.view_entries()[k as int].1.0,
                                constraints.view_entries()[k as int].1.1,
                                views_of(self.rows@[i as int]@)[ci as int],
                            ));
                            assert(!row_passes(
                                views_of(self.rows@[i as int]@),
                                constraints.view_entries(),
                                self.columns@,
                            ));
                        }
                        return false;
                    }
                },
                None => {},
            }
            k = k + 1;
        }
        true
    }
}

/// One row narrowed to the projected positions, values copied.
fn project_row_vec(row: &Vec<String>, projection: Option<&Vec<usize>>) -> (r: Vec<String>)
    requires
        match proj_view(projection) {
            Some(p) => forall|k: int| 0 <= k < p.len() ==> (#[trigger] p[k]) < row@.len(),
            None => true,
        },
    ensures
        views_of(r@) == project_row(views_of(row@), proj_view(projection)),
{
    match projection {
        Some(p) => {
            proof {
                assert(proj_view(projection) == Some(p@));
                assert forall|m: int| 0 <= m < p@.len() implies p@[m] < row@.len() by {
                    assert((proj_view(projection)->Some_0)[m] < row@.len());
                }
            }
            let mut out: Vec<String> = Vec::new();
            let mut k: usize = 0;
            while k < p.len()
                invariant
                    k <= p.len(),
                    out@.len() == k,
                    proj_view(projection) == Some(p@),
                    forall|m: int| 0 <= m < p@.len() ==> (#[trigger] p@[m]) < row@.len(),
                    forall|m: int| 0 <= m < k ==> #[trigger] out@[m]@ == row@[p@[m] as int]@,
                decreases p@.len() - k@,
            {
                out.push(row[p[k]].clone());
                k = k + 1;
            }
            proof {
                assert(views_of(out@) =~= project_row(views_of(row@), proj_view(projection)));
            }
            out
        },
        None => {
            let r = crate::predicate::clone_strings(row);
            proof {
                assert(views_of(r@) =~= project_row(views_of(row@), proj_view(projection)));
            }
            r
        },
    }
}

} // verus!
