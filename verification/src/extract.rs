//! The engine boundary: filter expressions in, constraint maps and scan
//! results out.
//!
//! Filter expressions arrive as the engine's opaque expression trees. What
//! the engine computes from one — the string-literal value of an argument,
//! the literal guarantees of a filter — depends on the expression and the
//! schema alone, so each result bears an uninterpreted name that ties it to
//! its inputs. The one thing left unnamed is the order in which a
//! guarantee's literal set is listed, which comes from a per-process hash
//! seed; the contracts relate the returned guarantees to the named ones
//! only up to that order, and the library's canonicalization makes the
//! constraint map blind to it. Everything after the analysis — resolving
//! columns, dropping non-string literals, the conservative conflict policy,
//! reading the store — is this crate's own verified logic.

use vstd::prelude::*;
use vstd::string::*;
use datafusion::prelude::Expr;
use datafusion::common::DFSchema;
use datafusion::common::DataFusionError;
use datafusion::execution::context::ExecutionProps;
use datafusion::physical_expr::create_physical_expr;
use datafusion::physical_expr::utils::Guarantee;
use datafusion::physical_expr::utils::LiteralGuarantee;
use datafusion::scalar::ScalarValue;
use arrow::datatypes::DataType;
use arrow::datatypes::Field;
use arrow::datatypes::Schema;
use crate::catalog::ColumnDef;
use crate::catalog::DbId;
use crate::catalog::DistinctCacheId;
use crate::catalog::TableId;
use crate::catalog::clone_column_defs;
use crate::catalog::find_column_id;
use crate::constraints::ConstraintMap;
use crate::constraints::FilterGuarantee;
use crate::constraints::GuaranteeKind;
use crate::constraints::build_constraint_map;
use crate::constraints::build_entries;
use crate::constraints::finish_entries;
use crate::constraints::guarantees_equiv;
use crate::constraints::lemma_build_err_unknown;
use crate::constraints::lemma_build_respects_equiv;
use crate::errors::CacheCallError;
use crate::function::DistinctCacheFunction;
use crate::function::DistinctCacheFunctionProvider;
use crate::function::resolve_call;
use crate::function::resolve_post;
use crate::registry::DistinctCacheProvider;
use crate::registry::lookup_store;
use crate::registry::scan_result_spec;
use crate::scan_node::DistinctCacheExec;
use crate::scan_node::names_of;
use crate::store::DistinctCache;
use crate::store::proj_view;
use crate::store::row_views;

verus! {

#[verifier::external_type_specification]
#[verifier::external_body]
pub struct ExExpr(Expr);

#[verifier::external_type_specification]
#[verifier::external_body]
pub struct ExDFSchema(DFSchema);

/// The engine-side schema built from a list of string column names: its
/// content is a function of the names alone (one nullable string field per
/// name, in order).
pub uninterp spec fn df_schema_for(cols: Seq<Seq<char>>) -> DFSchema;

/// The string-literal value of an expression, or `None` where the
/// expression is no string literal: a pure function of the expression.
pub uninterp spec fn literal_view(e: Expr) -> Option<Seq<char>>;

/// What the engine's guarantee analysis yields for one filter lowered
/// against a schema: `None` where lowering fails, else the per-column
/// literal guarantees. The guarantees, their columns, polarities, and
/// literal sets are functions of the filter and the schema alone; only
/// each set's listing order is not, and no contract speaks of it.
pub uninterp spec fn filter_guarantees(e: Expr, s: DFSchema) -> Option<Seq<FilterGuarantee>>;

/// Relies on matching `Expr::Literal` holding a non-null `ScalarValue::Utf8`:
/// the argument's string-literal value, or `None` for any other expression.
#[verifier::external_body]
fn expr_string_literal(e: &Expr) -> (r: Option<String>)
    ensures
        match r {
            Some(s) => literal_view(*e) == Some(s@),
            None => literal_view(*e) is None,
        },
{
    match e {
        Expr::Literal(ScalarValue::Utf8(Some(s))) => Some(s.clone()),
        _ => None,
    }
}

/// Relies on `DFSchema::try_from` over an arrow schema of one nullable
/// string field per column, under the column's name: the conversion never
/// fails, and the schema's content is determined by the names.
#[verifier::external_body]
fn df_schema_of(cols: &Vec<ColumnDef>) -> (r: Result<DFSchema, DataFusionError>)
    ensures
        r is Ok,
        r->Ok_0 == df_schema_for(names_of(cols@)),
{
    let fields: Vec<Field> = cols.iter().map(
        |c| Field::new(c.name.as_str(), DataType::Utf8, true),
    ).collect();
    DFSchema::try_from(std::sync::Arc::new(Schema::new(fields)))
}

/// Relies on `create_physical_expr` with fresh default `ExecutionProps` (a
/// fixed sentinel, so the lowering is a function of filter and schema) and
/// on `LiteralGuarantee::analyze`. Each guarantee is carried over field for
/// field, a non-string literal as `None`; the literal sets arrive in hash
/// order, so the result is related to the named guarantees only up to the
/// order within each set.
#[verifier::external_body]
fn analyze_filter(expr: &Expr, schema: &DFSchema) -> (r: Result<
    Vec<FilterGuarantee>,
    DataFusionError,
>)
    ensures
        match r {
            Ok(gs) => {
                &&& filter_guarantees(*expr, *schema) is Some
                &&& guarantees_equiv(gs@, filter_guarantees(*expr, *schema)->Some_0)
            },
            Err(_) => filter_guarantees(*expr, *schema) is None,
        },
{
    let physical = create_physical_expr(expr, schema, &ExecutionProps::new())?;
    let out = LiteralGuarantee::analyze(&physical).into_iter().map(|g| FilterGuarantee {
        column: g.column.name().to_string(),
        kind: match g.guarantee {
            Guarantee::In => GuaranteeKind::In,
            Guarantee::NotIn => GuaranteeKind::NotIn,
        },
        literals: g.literals.into_iter().map(|l| match l {
            ScalarValue::Utf8(Some(s)) | ScalarValue::Utf8View(Some(s)) => Some(s),
            _ => None,
        }).collect(),
    }).collect();
    Ok(out)
}

/// A reduced argument list holds, position for position, each expression's
/// string-literal value.
pub open spec fn args_reduced(args: Seq<Expr>, reduced: Seq<Option<String>>) -> bool {
    &&& reduced.len() == args.len()
    &&& forall|i: int|
        0 <= i < args.len() ==> match #[trigger] reduced[i] {
            Some(s) => literal_view(args[i]) == Some(s@),
            None => literal_view(args[i]) is None,
        }
}

/// Reduce each call argument to its string-literal value, or `None` where
/// it is no string literal.
pub fn literal_args(args: &Vec<Expr>) -> (r: Vec<Option<String>>)
    ensures
        args_reduced(args@, r@),
{
    let mut out: Vec<Option<String>> = Vec::new();
    let mut i: usize = 0;
    while i < args.len()
        invariant
            i <= args.len(),
            out@.len() == i,
            forall|k: int|
                0 <= k < i ==> match #[trigger] out@[k] {
                    Some(s) => literal_view(args@[k]) == Some(s@),
                    None => literal_view(args@[k]) is None,
                },
        decreases args@.len() - i@,
    {
        out.push(expr_string_literal(&args[i]));
        i = i + 1;
    }
    out
}

/// The concatenated guarantees of a filter list, or `None` when any
/// filter's analysis fails.
pub open spec fn all_guarantees(filters: Seq<Expr>, s: DFSchema) -> Option<
    Seq<FilterGuarantee>,
>
    decreases filters.len(),
{
    if filters.len() == 0 {
        Some(Seq::empty())
    } else {
        match all_guarantees(filters.drop_last(), s) {
            None => None,
            Some(rest) => match filter_guarantees(filters.last(), s) {
                None => None,
                Some(gs) => Some(rest + gs),
            },
        }
    }
}

/// A failed analysis within a prefix decides the whole list.
pub proof fn lemma_all_guarantees_none_extends(filters: Seq<Expr>, s: DFSchema, k: int)
    requires
        0 <= k <= filters.len(),
        all_guarantees(filters.take(k), s) is None,
    ensures
        all_guarantees(filters, s) is None,
    decreases filters.len() - k,
{
    if k == filters.len() {
        assert(filters.take(k) =~= filters);
    } else {
        assert(filters.take(k + 1).drop_last() =~= filters.take(k));
        lemma_all_guarantees_none_extends(filters, s, k + 1);
    }
}

/// Equivalence of guarantee lists is kept by concatenation.
pub proof fn lemma_equiv_concat(
    a1: Seq<FilterGuarantee>,
    b1: Seq<FilterGuarantee>,
    a2: Seq<FilterGuarantee>,
    b2: Seq<FilterGuarantee>,
)
    requires
        guarantees_equiv(a1, b1),
        guarantees_equiv(a2, b2),
    ensures
        guarantees_equiv(a1 + a2, b1 + b2),
{
    assert forall|i: int|
        0 <= i < (a1 + a2).len() implies crate::constraints::guarantee_equiv(
        #[trigger] (a1 + a2)[i],
        #[trigger] (b1 + b2)[i],
    ) by {
        if i < a1.len() {
            assert((a1 + a2)[i] == a1[i] && (b1 + b2)[i] == b1[i]);
            assert(crate::constraints::guarantee_equiv(a1[i], b1[i]));
        } else {
            assert((a1 + a2)[i] == a2[i - a1.len()] && (b1 + b2)[i] == b2[i - a1.len()]);
            assert(crate::constraints::guarantee_equiv(a2[i - a1.len()], b2[i - a1.len()]));
        }
    }
}

/// What conversion returns, for every input: `Ok` exactly the fold of the
/// filters' named guarantees, the planning error exactly on an unknown
/// column, the engine's error exactly when some filter's analysis failed.
pub open spec fn convert_post(
    t: crate::catalog::TableDefinition,
    cache_schema: Seq<ColumnDef>,
    filters: Seq<Expr>,
    r: Result<ConstraintMap, CacheCallError>,
) -> bool {
    let ag = all_guarantees(filters, df_schema_for(names_of(cache_schema)));
    match r {
        Ok(m) => {
            &&& ag is Some
            &&& build_entries(ag->Some_0, t) is Ok
            &&& m.view_entries() == finish_entries(build_entries(ag->Some_0, t)->Ok_0)
        },
        Err(e) => match e {
            CacheCallError::Lowering(_) => ag is None,
            CacheCallError::InvalidColumnName(c) => {
                &&& ag is Some
                &&& build_entries(ag->Some_0, t) == Err::<
                    Seq<(crate::catalog::ColumnId, Option<(bool, Seq<Seq<char>>)>)>,
                    Seq<char>,
                >(c@)
                &&& find_column_id(t.columns@, c@) is None
            },
            _ => false,
        },
    }
}

/// Converting the same filters against the same table and schema twice
/// yields the same outcome: the same map, or the same error naming the
/// same column — the extractor is a pure function of its inputs.
pub proof fn lemma_convert_idempotent(
    t: crate::catalog::TableDefinition,
    cache_schema: Seq<ColumnDef>,
    filters: Seq<Expr>,
    r1: Result<ConstraintMap, CacheCallError>,
    r2: Result<ConstraintMap, CacheCallError>,
)
    requires
        convert_post(t, cache_schema, filters, r1),
        convert_post(t, cache_schema, filters, r2),
    ensures
        r1 is Ok <==> r2 is Ok,
        r1 is Ok && r2 is Ok ==> r1->Ok_0.view_entries() == r2->Ok_0.view_entries(),
        match (r1, r2) {
            (
                Err(CacheCallError::InvalidColumnName(c1)),
                Err(CacheCallError::InvalidColumnName(c2)),
            ) => c1@ == c2@,
            (Err(CacheCallError::InvalidColumnName(_)), Err(CacheCallError::Lowering(_))) => false,
            (Err(CacheCallError::Lowering(_)), Err(CacheCallError::InvalidColumnName(_))) => false,
            _ => true,
        },
{
}

/// Convert a list of filter expressions into the per-column constraint map.
///
/// Exactly the verified fold of the filters' named guarantees against the
/// table: `Ok` carries `finish_entries(build_entries(...))` of them, the
/// planning error names the first unresolvable column, and the engine's
/// error propagates if and only if some filter's analysis failed.
pub fn convert_filter_exprs(
    table_def: &crate::catalog::TableDefinition,
    cache_schema: &Vec<ColumnDef>,
    filters: &Vec<Expr>,
) -> (r: Result<ConstraintMap, CacheCallError>)
    ensures
        convert_post(*table_def, cache_schema@, filters@, r),
{
    let df_schema = match df_schema_of(cache_schema) {
        Ok(s) => s,
        Err(e) => {
            proof {
                assert(false);
            }
            return Err(CacheCallError::Lowering(e));
        },
    };
    let mut guarantees: Vec<FilterGuarantee> = Vec::new();
    let mut i: usize = 0;
    proof {
        assert(filters@.take(0) =~= Seq::<Expr>::empty());
        assert(guarantees_equiv(
            guarantees@,
            all_guarantees(filters@.take(0), df_schema)->Some_0,
        ));
    }
    while i < filters.len()
        invariant
            i <= filters.len(),
            df_schema == df_schema_for(names_of(cache_schema@)),
            all_guarantees(filters@.take(i as int), df_schema) is Some,
            guarantees_equiv(
                guarantees@,
                all_guarantees(filters@.take(i as int), df_schema)->Some_0,
            ),
        decreases filters@.len() - i@,
    {
        proof {
            assert(filters@.take(i + 1).drop_last() =~= filters@.take(i as int));
            assert(filters@.take(i + 1).last() == filters@[i as int]);
        }
        match analyze_filter(&filters[i], &df_schema) {
            Ok(gs) => {
                let ghost pre = guarantees@;
                let ghost gsv = gs@;
                let mut gs_mut = gs;
                guarantees.append(&mut gs_mut);
                proof {
                    let named_pre = all_guarantees(filters@.take(i as int), df_schema)->Some_0;
                    let named_new = filter_guarantees(filters@[i as int], df_schema)->Some_0;
                    lemma_equiv_concat(pre, named_pre, gsv, named_new);
                    assert(guarantees@ == pre + gsv);
                    assert(all_guarantees(filters@.take(i + 1), df_schema) == Some(
                        named_pre + named_new,
                    ));
                }
            },
            Err(e) => {
                proof {
                    assert(all_guarantees(filters@.take(i + 1), df_schema) is None);
                    lemma_all_guarantees_none_extends(filters@, df_schema, i + 1);
                }
                return Err(CacheCallError::Lowering(e));
            },
        }
        i = i + 1;
    }
    proof {
        assert(filters@.take(i as int) =~= filters@);
    }
    let ghost named = all_guarantees(filters@, df_schema_for(names_of(cache_schema@)))->Some_0;
    proof {
        lemma_build_respects_equiv(guarantees@, named, *table_def);
    }
    match build_constraint_map(&guarantees, table_def) {
        Ok(m) => {
            Ok(m)
        },
        Err(e) => {
            proof {
                match &e {
                    CacheCallError::InvalidColumnName(c) => {
                        assert(build_entries(named, *table_def) == Err::<
                            Seq<(crate::catalog::ColumnId, Option<(bool, Seq<Seq<char>>)>)>,
                            Seq<char>,
                        >(c@));
                        lemma_build_err_unknown(named, *table_def);
                    },
                    _ => {},
                }
            }
            Err(e)
        },
    }
}

/// The cache schema narrowed to the projected positions.
pub open spec fn projected_columns(cols: Seq<ColumnDef>, proj: Option<Seq<usize>>) -> Seq<
    ColumnDef,
> {
    match proj {
        Some(p) => p.map_values(|ix: usize| cols[ix as int]),
        None => cols,
    }
}

/// Narrow a schema to the projected positions, copying the columns.
fn project_schema(cols: &Vec<ColumnDef>, projection: Option<&Vec<usize>>) -> (r: Result<
    Vec<ColumnDef>,
    CacheCallError,
>)
    ensures
        match r {
            Ok(s) => {
                &&& s@ == projected_columns(cols@, proj_view(projection))
                &&& match proj_view(projection) {
                    Some(p) => forall|k: int| 0 <= k < p.len() ==> (#[trigger] p[k]) < cols@.len(),
                    None => true,
                }
            },
            Err(e) => {
                &&& e is InvalidProjection
                &&& proj_view(projection) is Some
                &&& exists|k: int|
                    0 <= k < proj_view(projection)->Some_0.len() && (#[trigger] proj_view(
                        projection,
                    )->Some_0[k]) >= cols@.len()
            },
        },
{
    match projection {
        Some(p) => {
            let mut out: Vec<ColumnDef> = Vec::new();
            let mut k: usize = 0;
            while k < p.len()
                invariant
                    k <= p.len(),
                    out@.len() == k,
                    proj_view(projection) == Some(p@),
                    forall|m: int| 0 <= m < k ==> (#[trigger] p@[m]) < cols@.len(),
                    forall|m: int| 0 <= m < k ==> #[trigger] out@[m] == cols@[p@[m] as int],
                decreases p@.len() - k@,
            {
                if p[k] >= cols.len() {
                    proof {
                        assert((proj_view(projection)->Some_0)[k as int] >= cols@.len());
                    }
                    return Err(CacheCallError::InvalidProjection);
                }
                out.push(ColumnDef { id: cols[p[k]].id, name: cols[p[k]].name.clone() });
                proof {
                    assert(out@[k as int] == cols@[p@[k as int] as int]);
                }
                k = k + 1;
            }
            proof {
                assert(out@ =~= projected_columns(cols@, proj_view(projection)));
                assert forall|m: int|
                    0 <= m < (proj_view(projection)->Some_0).len() implies (proj_view(
                    projection,
                )->Some_0)[m] < cols@.len() by {
                    assert(p@[m] < cols@.len());
                }
            }
            Ok(out)
        },
        None => {
            let r = clone_column_defs(cols);
            Ok(r)
        },
    }
}

/// What one scan returns, as a function of the binding, the registry state
/// and the call: each error exactly on its own condition, and success —
/// owed whenever the projection fits and the analysis goes through, and in
/// particular whenever the cache is gone — pinned to the store's rows under
/// the filters' named guarantees.
pub open spec fn scan_post(
    b: DistinctCacheFunctionProvider,
    m: Seq<(DbId, Vec<(TableId, Vec<(DistinctCacheId, DistinctCache)>)>)>,
    filters: Seq<Expr>,
    proj: Option<Seq<usize>>,
    limit: Option<usize>,
    r: Result<(DistinctCacheExec, Vec<Vec<String>>), CacheCallError>,
) -> bool {
    let store = lookup_store(m, b.db_id, b.table_def.table_id, b.cache_id);
    let ag = all_guarantees(filters, df_schema_for(names_of(b.schema@)));
    let proj_ok = match proj {
        Some(p) => forall|k: int| 0 <= k < p.len() ==> (#[trigger] p[k]) < b.schema@.len(),
        None => true,
    };
    match r {
        Ok((node, rows)) => {
            &&& proj_ok
            &&& node.is_projected == (proj is Some)
            &&& node.limit == limit
            &&& node.schema@ == projected_columns(b.schema@, proj)
            &&& (store is None ==> rows@.len() == 0 && node.predicates is None)
            &&& (store is Some ==> {
                &&& ag is Some
                &&& build_entries(ag->Some_0, b.table_def) is Ok
                &&& {
                    let entries = finish_entries(build_entries(ag->Some_0, b.table_def)->Ok_0);
                    &&& (match node.predicates {
                        Some(cm) => cm.view_entries() == entries && entries.len() > 0,
                        None => entries.len() == 0,
                    })
                    &&& row_views(rows@) == scan_result_spec(
                        m,
                        b.db_id,
                        b.table_def.table_id,
                        b.cache_id,
                        entries,
                        proj,
                        limit,
                    )
                }
            })
        },
        Err(e) => match e {
            CacheCallError::InvalidProjection => {
                &&& proj is Some
                &&& exists|k: int|
                    0 <= k < proj->Some_0.len() && (#[trigger] proj->Some_0[k]) >= b.schema@.len()
            },
            CacheCallError::Lowering(_) => proj_ok && store is Some && ag is None,
            CacheCallError::InvalidColumnName(c) => {
                &&& proj_ok
                &&& store is Some
                &&& ag is Some
                &&& build_entries(ag->Some_0, b.table_def) == Err::<
                    Seq<(crate::catalog::ColumnId, Option<(bool, Seq<Seq<char>>)>)>,
                    Seq<char>,
                >(c@)
                &&& find_column_id(b.table_def.columns@, c@) is None
            },
            _ => false,
        },
    }
}

impl DistinctCacheFunctionProvider {
    /// Serve one scan of the bound cache: narrow the schema to the
    /// projection, convert the filters to constraints, and read the store.
    /// A cache that has been removed since resolution yields a node over
    /// zero rows — never an error.
    pub fn scan(
        &self,
        provider: &DistinctCacheProvider,
        filters: &Vec<Expr>,
        projection: Option<&Vec<usize>>,
        limit: Option<usize>,
    ) -> (r: Result<(DistinctCacheExec, Vec<Vec<String>>), CacheCallError>)
        requires
            provider.wf(),
        ensures
            scan_post(*self, provider.cache_map@, filters@, proj_view(projection), limit, r),
    {
        let output_schema = match project_schema(&self.schema, projection) {
            Ok(s) => s,
            Err(e) => {
                return Err(e);
            },
        };
        if provider.has_cache(self.db_id, self.table_def.table_id, self.cache_id) {
            let predicates = match convert_filter_exprs(&self.table_def, &self.schema, filters) {
                Ok(m) => m,
                Err(e) => {
                    return Err(e);
                },
            };
            let rows = provider.scan(
                self.db_id,
                self.table_def.table_id,
                self.cache_id,
                &predicates,
                projection,
                limit,
            );
            let node_predicates = if predicates.is_empty() {
                None
            } else {
                Some(predicates)
            };
            let node = DistinctCacheExec::new(
                node_predicates,
                output_schema,
                match projection {
                    Some(_) => true,
                    None => false,
                },
                limit,
            );
            Ok((node, rows))
        } else {
            let rows: Vec<Vec<String>> = Vec::new();
            let node = DistinctCacheExec::new(
                None,
                output_schema,
                match projection {
                    Some(_) => true,
                    None => false,
                },
                limit,
            );
            Ok((node, rows))
        }
    }
}

impl DistinctCacheFunction {
    /// Resolve a call's expression arguments: each is reduced to its named
    /// string-literal value, and the reduced list — pinned to the arguments
    /// by `args_reduced` — meets the resolver's full case analysis.
    pub fn call(&self, args: &Vec<Expr>) -> (r: Result<
        DistinctCacheFunctionProvider,
        CacheCallError,
    >)
        ensures
            exists|reduced: Seq<Option<String>>|
                #[trigger] args_reduced(args@, reduced) && resolve_post(
                    reduced,
                    self.provider.catalog,
                    self.provider.cache_map@,
                    self.db_id,
                    r,
                ),
    {
        let reduced = literal_args(args);
        let r = resolve_call(&reduced, &self.provider, self.db_id);
        proof {
            assert(args_reduced(args@, reduced@));
            assert(resolve_post(
                reduced@,
                self.provider.catalog,
                self.provider.cache_map@,
                self.db_id,
                r,
            ));
        }
        r
    }
}

} // verus!
