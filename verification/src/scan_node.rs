//! The cache scan node: the already-materialized result of one cache read,
//! together with what was pushed down, for diagnostics.
//!
//! The node records whether a projection was applied, the row limit, and
//! the constraint map (when non-empty), and renders them in a stable form
//! for query explain output. The textual form is a function of the node and
//! the table definition alone, so equal plans always print alike.

use vstd::prelude::*;
use vstd::string::*;
use crate::catalog::ColumnDef;
use crate::catalog::ColumnId;
use crate::catalog::TableDefinition;
use crate::catalog::find_column_name;
use crate::constraints::ConstraintMap;
use crate::predicate::render_pred;
use crate::text::decimal_chars;
use crate::text::join_strings;
use crate::text::join_with;
use crate::text::u64_to_string;
use crate::text::views_of;

verus! {

/// The names of a column list, in order.
pub open spec fn names_of(cols: Seq<ColumnDef>) -> Seq<Seq<char>> {
    cols.map_values(|c: ColumnDef| c.name@)
}

/// One rendered constraint entry: `[name@id IN (v1,v2)]`, with an empty
/// name when the table does not know the column.
pub open spec fn render_entry(
    t: TableDefinition,
    id: ColumnId,
    pv: (bool, Seq<Seq<char>>),
) -> Seq<char> {
    let name = match find_column_name(t.columns@, id) {
        Some(n) => n,
        None => Seq::<char>::empty(),
    };
    "["@ + name + "@"@ + decimal_chars(id.0 as nat) + " "@ + render_pred(pv.0, pv.1) + "]"@
}

/// The rendered constraint entries, joined by `, `.
pub open spec fn render_entries(
    t: TableDefinition,
    entries: Seq<(ColumnId, (bool, Seq<Seq<char>>))>,
) -> Seq<char>
    decreases entries.len(),
{
    if entries.len() == 0 {
        Seq::empty()
    } else if entries.len() == 1 {
        render_entry(t, entries[0].0, entries[0].1)
    } else {
        render_entry(t, entries[0].0, entries[0].1) + ", "@ + render_entries(t, entries.skip(1))
    }
}

/// The scan node: the pushed-down constraint map (kept only when
/// non-empty), the output schema it produced, whether that schema came from
/// a projection, and the row limit.
#[derive(Debug)]
pub struct DistinctCacheExec {
    pub predicates: Option<ConstraintMap>,
    pub schema: Vec<ColumnDef>,
    pub is_projected: bool,
    pub limit: Option<usize>,
}

impl DistinctCacheExec {
    /// The node's diagnostic line, up to the wrapped source description:
    /// the name, then `projection=[...]` if projected, then `limit=n` if
    /// limited, then `predicates=[...]` if any were pushed down.
    pub open spec fn render_spec(&self, t: TableDefinition) -> Seq<char> {
        "DistinctCacheExec:"@ + (if self.is_projected {
            " projection=["@ + join_with(names_of(self.schema@), ", "@) + "]"@
        } else {
            Seq::<char>::empty()
        }) + (match self.limit {
            Some(l) => " limit="@ + decimal_chars(l as nat),
            None => Seq::<char>::empty(),
        }) + (match self.predicates {
            Some(cm) => " predicates=["@ + render_entries(t, cm.view_entries()) + "]"@,
            None => Seq::<char>::empty(),
        }) + " inner="@
    }

    /// Build a node from what the scan pushed down and produced.
    pub fn new(
        predicates: Option<ConstraintMap>,
        schema: Vec<ColumnDef>,
        is_projected: bool,
        limit: Option<usize>,
    ) -> (r: DistinctCacheExec)
        ensures
            r.predicates == predicates,
            r.schema == schema,
            r.is_projected == is_projected,
            r.limit == limit,
    {
        DistinctCacheExec { predicates, schema, is_projected, limit }
    }

    /// Render the node's diagnostic line.
    pub fn render(&self, table_def: &TableDefinition) -> (r: String)
        ensures
            r@ == self.render_spec(*table_def),
    {
        let mut s = String::from_str("DistinctCacheExec:");
        if self.is_projected {
            s.append(" projection=[");
            let names = schema_names(&self.schema);
            let joined = join_strings(&names, ", ");
            s.append(joined.as_str());
            s.append("]");
        }
        match self.limit {
            Some(l) => {
                s.append(" limit=");
                let n = u64_to_string(l as u64);
                s.append(n.as_str());
            },
            None => {},
        }
        match &self.predicates {
            Some(cm) => {
                s.append(" predicates=[");
                let entries = render_entries_exec(table_def, cm);
                s.append(entries.as_str());
                s.append("]");
            },
            None => {},
        }
        s.append(" inner=");
        proof {
            assert(s@ =~= self.render_spec(*table_def));
        }
        s
    }
}

/// The column names of a schema, as strings.
fn schema_names(cols: &Vec<ColumnDef>) -> (r: Vec<String>)
    ensures
        views_of(r@) == names_of(cols@),
{
    let mut out: Vec<String> = Vec::new();
    let mut i: usize = 0;
    while i < cols.len()
        invariant
            i <= cols.len(),
            out@.len() == i,
            forall|k: int| 0 <= k < i ==> #[trigger] out@[k]@ == cols@[k].name@,
        decreases cols@.len() - i@,
    {
        out.push(cols[i].name.clone());
        i = i + 1;
    }
    proof {
        assert(views_of(out@) =~= names_of(cols@));
    }
    out
}

/// Render the constraint entries from position `i` on, joined by `, `.
fn render_entries_from(t: &TableDefinition, cm: &ConstraintMap, i: usize) -> (r: String)
    requires
        i <= cm.entries@.len(),
    ensures
        r@ == render_entries(*t, cm.view_entries().skip(i as int)),
    decreases cm.entries@.len() - i@,
{
    if i == cm.entries.len() {
        let r = String::new();
        proof {
            assert(cm.view_entries().skip(i as int).len() == 0);
        }
        r
    } else {
        let mut s = String::from_str("[");
        let id = cm.entries[i].0;
        match t.column_id_to_name(id) {
            Some(name) => {
                s.append(name.as_str());
            },
            None => {},
        }
        s.append("@");
        let id_str = u64_to_string(id.0 as u64);
        s.append(id_str.as_str());
        s.append(" ");
        let pred_str = cm.entries[i].1.render();
        s.append(pred_str.as_str());
        s.append("]");
        proof {
            assert(cm.view_entries().skip(i as int)[0] == cm.view_entries()[i as int]);
            assert(cm.view_entries()[i as int] == (
                cm.entries@[i as int].0,
                (cm.entries@[i as int].1.is_in(), cm.entries@[i as int].1.values_seq()),
            ));
            assert(s@ =~= render_entry(
                *t,
                cm.view_entries()[i as int].0,
                cm.view_entries()[i as int].1,
            ));
        }
        if i + 1 == cm.entries.len() {
            proof {
                assert(cm.view_entries().skip(i as int).len() == 1);
            }
            s
        } else {
            s.append(", ");
            let rest = render_entries_from(t, cm, i + 1);
            s.append(rest.as_str());
            proof {
                assert(cm.view_entries().skip(i as int).skip(1) =~= cm.view_entries().skip(
                    i + 1,
                ));
                assert(s@ =~= render_entry(
                    *t,
                    cm.view_entries().skip(i as int)[0].0,
                    cm.view_entries().skip(i as int)[0].1,
                ) + ", "@ + render_entries(*t, cm.view_entries().skip(i + 1)));
            }
            s
        }
    }
}

/// Render a whole constraint map's entries, joined by `, `.
fn render_entries_exec(t: &TableDefinition, cm: &ConstraintMap) -> (r: String)
    ensures
        r@ == render_entries(*t, cm.view_entries()),
{
    let r = render_entries_from(t, cm, 0);
    proof {
        assert(cm.view_entries().skip(0) =~= cm.view_entries());
    }
    r
}

} // verus!
