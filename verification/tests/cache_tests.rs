use datafusion::prelude::col;
use datafusion::prelude::in_list;
use datafusion::prelude::lit;
use datafusion::prelude::Expr;
use distinct_cache::catalog::Catalog;
use distinct_cache::catalog::ColumnDef;
use distinct_cache::catalog::ColumnId;
use distinct_cache::catalog::DatabaseSchema;
use distinct_cache::catalog::DbId;
use distinct_cache::catalog::DistinctCacheDefinition;
use distinct_cache::catalog::DistinctCacheId;
use distinct_cache::catalog::TableDefinition;
use distinct_cache::catalog::TableId;
use distinct_cache::constraints::build_constraint_map;
use distinct_cache::constraints::FilterGuarantee;
use distinct_cache::constraints::GuaranteeKind;
use distinct_cache::errors::CacheCallError;
use distinct_cache::extract::convert_filter_exprs;
use distinct_cache::extract::literal_args;
use distinct_cache::function::resolve_call;
use distinct_cache::function::DistinctCacheFunction;
use distinct_cache::function::DISTINCT_CACHE_UDTF_NAME;
use distinct_cache::predicate::Predicate;
use distinct_cache::registry::DistinctCacheProvider;
use distinct_cache::store::DistinctCache;
use distinct_cache::text::u64_to_string;

fn host_region_columns() -> Vec<ColumnDef> {
    vec![
        ColumnDef { id: ColumnId(0), name: "host".to_string() },
        ColumnDef { id: ColumnId(1), name: "region".to_string() },
    ]
}

fn cpu_table() -> TableDefinition {
    TableDefinition {
        table_id: TableId(1),
        table_name: "cpu".to_string(),
        columns: host_region_columns(),
        distinct_caches: vec![DistinctCacheDefinition {
            cache_id: DistinctCacheId(7),
            cache_name: "cpu_tags".to_string(),
        }],
    }
}

fn row(a: &str, b: &str) -> Vec<String> {
    vec![a.to_string(), b.to_string()]
}

fn cpu_provider() -> DistinctCacheProvider {
    let store = DistinctCache {
        columns: host_region_columns(),
        rows: vec![row("a", "us-east"), row("b", "us-east"), row("c", "eu-west")],
    };
    DistinctCacheProvider {
        catalog: Catalog {
            databases: vec![DatabaseSchema { id: DbId(0), tables: vec![cpu_table()] }],
        },
        cache_map: vec![(DbId(0), vec![(TableId(1), vec![(DistinctCacheId(7), store)])])],
    }
}

fn string_args(args: &[&str]) -> Vec<Option<String>> {
    args.iter().map(|a| Some(a.to_string())).collect()
}

#[test]
fn single_equality_extracts_in_predicate() {
    let table = cpu_table();
    let schema = host_region_columns();
    let filters: Vec<Expr> = vec![col("host").eq(lit("a"))];
    let map = convert_filter_exprs(&table, &schema, &filters).unwrap();
    assert_eq!(1, map.entries.len());
    assert_eq!(ColumnId(0), map.entries[0].0);
    match &map.entries[0].1 {
        Predicate::In { values } => assert_eq!(&vec!["a".to_string()], values),
        Predicate::NotIn { .. } => panic!("expected an inclusion predicate"),
    }
}

#[test]
fn disjunction_collapses_to_one_in_set() {
    let table = cpu_table();
    let schema = host_region_columns();
    let filters: Vec<Expr> = vec![col("host").eq(lit("a")).or(col("host").eq(lit("b")))];
    let map = convert_filter_exprs(&table, &schema, &filters).unwrap();
    assert_eq!(1, map.entries.len());
    match &map.entries[0].1 {
        Predicate::In { values } => {
            assert_eq!(&vec!["a".to_string(), "b".to_string()], values)
        },
        Predicate::NotIn { .. } => panic!("expected an inclusion predicate"),
    }
}

#[test]
fn negated_in_list_extracts_not_in() {
    let table = cpu_table();
    let schema = host_region_columns();
    let filters: Vec<Expr> = vec![in_list(col("host"), vec![lit("b"), lit("a")], true)];
    let map = convert_filter_exprs(&table, &schema, &filters).unwrap();
    assert_eq!(1, map.entries.len());
    match &map.entries[0].1 {
        Predicate::NotIn { values } => {
            assert_eq!(&vec!["a".to_string(), "b".to_string()], values)
        },
        Predicate::In { .. } => panic!("expected an exclusion predicate"),
    }
}

#[test]
fn conflicting_guarantees_discard_the_column() {
    let table = cpu_table();
    let schema = host_region_columns();
    let filters: Vec<Expr> = vec![col("host").eq(lit("a")), col("host").eq(lit("b"))];
    let map = convert_filter_exprs(&table, &schema, &filters).unwrap();
    assert_eq!(0, map.entries.len());
}

#[test]
fn unknown_column_is_a_planning_error() {
    let mut table = cpu_table();
    table.columns = vec![ColumnDef { id: ColumnId(1), name: "region".to_string() }];
    let schema = host_region_columns();
    let filters: Vec<Expr> = vec![col("host").eq(lit("a"))];
    let err = convert_filter_exprs(&table, &schema, &filters).unwrap_err();
    match err {
        CacheCallError::InvalidColumnName(name) => assert_eq!("host", name),
        _ => panic!("expected the unknown column to be named"),
    }
}

#[test]
fn non_string_literals_drop_out_of_the_set() {
    let table = cpu_table();
    let guarantees = vec![FilterGuarantee {
        column: "host".to_string(),
        kind: GuaranteeKind::In,
        literals: vec![None, Some("a".to_string()), None],
    }];
    let map = build_constraint_map(&guarantees, &table).unwrap();
    assert_eq!(1, map.entries.len());
    match &map.entries[0].1 {
        Predicate::In { values } => assert_eq!(&vec!["a".to_string()], values),
        Predicate::NotIn { .. } => panic!("expected an inclusion predicate"),
    }
}

#[test]
fn all_non_string_guarantee_is_skipped_without_error() {
    let table = cpu_table();
    let guarantees = vec![
        FilterGuarantee {
            column: "host".to_string(),
            kind: GuaranteeKind::In,
            literals: vec![None, None],
        },
        FilterGuarantee {
            column: "region".to_string(),
            kind: GuaranteeKind::In,
            literals: vec![Some("us-east".to_string())],
        },
    ];
    let map = build_constraint_map(&guarantees, &table).unwrap();
    assert_eq!(1, map.entries.len());
    assert_eq!(ColumnId(1), map.entries[0].0);
}

#[test]
fn sole_cache_and_named_cache_resolve_alike() {
    let provider = cpu_provider();
    let unnamed = resolve_call(&string_args(&["cpu"]), &provider, DbId(0)).unwrap();
    let named = resolve_call(&string_args(&["cpu", "cpu_tags"]), &provider, DbId(0)).unwrap();
    assert_eq!(unnamed.cache_id, named.cache_id);
    assert_eq!(unnamed.db_id, named.db_id);
    assert_eq!(unnamed.table_def.table_id, named.table_def.table_id);
    assert_eq!(unnamed.schema.len(), named.schema.len());
}

#[test]
fn zero_or_many_caches_fail_without_a_name() {
    let mut provider = cpu_provider();
    provider.catalog.databases[0].tables[0].distinct_caches = vec![];
    let err = resolve_call(&string_args(&["cpu"]), &provider, DbId(0)).unwrap_err();
    assert!(matches!(err, CacheCallError::CacheNotFound));

    let mut provider = cpu_provider();
    provider.catalog.databases[0].tables[0].distinct_caches = vec![
        DistinctCacheDefinition { cache_id: DistinctCacheId(7), cache_name: "one".to_string() },
        DistinctCacheDefinition { cache_id: DistinctCacheId(8), cache_name: "two".to_string() },
    ];
    let err = resolve_call(&string_args(&["cpu"]), &provider, DbId(0)).unwrap_err();
    assert!(matches!(err, CacheCallError::CacheNotFound));
}

#[test]
fn bad_arguments_are_planning_errors() {
    let provider = cpu_provider();
    let err = resolve_call(&vec![], &provider, DbId(0)).unwrap_err();
    assert!(matches!(err, CacheCallError::MissingTableName));

    let err = resolve_call(&vec![None], &provider, DbId(0)).unwrap_err();
    assert!(matches!(err, CacheCallError::MissingTableName));

    let err = resolve_call(&vec![Some("cpu".to_string()), None], &provider, DbId(0)).unwrap_err();
    assert!(matches!(err, CacheCallError::InvalidCacheNameArgument));

    let err = resolve_call(&string_args(&["nope"]), &provider, DbId(0)).unwrap_err();
    match err {
        CacheCallError::InvalidTableName(name) => assert_eq!("nope", name),
        _ => panic!("expected the table name in the error"),
    }

    let err = resolve_call(&string_args(&["cpu", "nope"]), &provider, DbId(0)).unwrap_err();
    assert!(matches!(err, CacheCallError::CacheNotFound));
}

#[test]
fn literal_arguments_reduce_to_strings() {
    let args: Vec<Expr> = vec![lit("cpu"), lit(5i64), col("host")];
    let reduced = literal_args(&args);
    assert_eq!(
        vec![Some("cpu".to_string()), None, None],
        reduced
    );
}

#[test]
fn scan_renders_pushed_down_in_predicate() {
    let provider = cpu_provider();
    let binding = resolve_call(&string_args(&["cpu", "cpu_tags"]), &provider, DbId(0)).unwrap();
    let filters: Vec<Expr> = vec![col("host").eq(lit("a")).or(col("host").eq(lit("b")))];
    let (node, rows) = binding.scan(&provider, &filters, None, None).unwrap();
    let rendered = node.render(&binding.table_def);
    assert!(
        rendered.contains("predicates=[[host@0 IN (a,b)]]"),
        "unexpected rendering: {rendered}"
    );
    assert_eq!(vec![row("a", "us-east"), row("b", "us-east")], rows);
}

#[test]
fn scan_renders_independent_predicates_in_reference_order() {
    let provider = cpu_provider();
    let binding = resolve_call(&string_args(&["cpu", "cpu_tags"]), &provider, DbId(0)).unwrap();
    let filters: Vec<Expr> =
        vec![col("host").not_eq(lit("a")).and(col("region").eq(lit("us-east")))];
    let (node, rows) = binding.scan(&provider, &filters, None, None).unwrap();
    let rendered = node.render(&binding.table_def);
    assert!(
        rendered.contains("predicates=[[host@0 NOT IN (a)], [region@1 IN (us-east)]]"),
        "unexpected rendering: {rendered}"
    );
    assert_eq!(vec![row("b", "us-east")], rows);
}

#[test]
fn scan_projection_and_limit_render_and_apply() {
    let provider = cpu_provider();
    let binding = resolve_call(&string_args(&["cpu"]), &provider, DbId(0)).unwrap();
    let filters: Vec<Expr> = vec![];
    let projection = vec![1usize];
    let (node, rows) = binding.scan(&provider, &filters, Some(&projection), Some(2)).unwrap();
    let rendered = node.render(&binding.table_def);
    assert!(
        rendered.contains("projection=[region] limit=2"),
        "unexpected rendering: {rendered}"
    );
    assert_eq!(2, rows.len());
    for r in &rows {
        assert_eq!(1, r.len());
    }
    assert_eq!(vec![vec!["us-east".to_string()], vec!["us-east".to_string()]], rows);
}

#[test]
fn scan_of_removed_cache_yields_zero_rows() {
    let mut provider = cpu_provider();
    let binding = resolve_call(&string_args(&["cpu"]), &provider, DbId(0)).unwrap();
    provider.cache_map.clear();
    let filters: Vec<Expr> = vec![col("host").eq(lit("a"))];
    let (node, rows) = binding.scan(&provider, &filters, None, None).unwrap();
    assert_eq!(0, rows.len());
    let rendered = node.render(&binding.table_def);
    assert!(!rendered.contains("predicates="), "unexpected rendering: {rendered}");
}

#[test]
fn repeated_scan_is_identical() {
    let provider = cpu_provider();
    let binding = resolve_call(&string_args(&["cpu"]), &provider, DbId(0)).unwrap();
    let filters: Vec<Expr> = vec![col("host").eq(lit("a")).or(col("host").eq(lit("c")))];
    let (node1, rows1) = binding.scan(&provider, &filters, None, None).unwrap();
    let (node2, rows2) = binding.scan(&provider, &filters, None, None).unwrap();
    assert_eq!(rows1, rows2);
    assert_eq!(node1.render(&binding.table_def), node2.render(&binding.table_def));
}

#[test]
fn predicate_values_are_canonical() {
    let p = Predicate::new_in(vec![
        "b".to_string(),
        "a".to_string(),
        "b".to_string(),
        "aa".to_string(),
    ]);
    assert_eq!(
        &vec!["a".to_string(), "aa".to_string(), "b".to_string()],
        p.values()
    );
    assert_eq!("IN (a,aa,b)", p.render());

    let q = Predicate::new_not_in(vec!["z".to_string(), "a".to_string()]);
    assert_eq!("NOT IN (a,z)", q.render());
}

#[test]
fn numbers_render_in_decimal() {
    assert_eq!("0", u64_to_string(0));
    assert_eq!("42", u64_to_string(42));
    assert_eq!("18446744073709551615", u64_to_string(u64::MAX));
}

#[test]
fn function_call_resolves_expression_arguments() {
    let f = DistinctCacheFunction::new(DbId(0), std::sync::Arc::new(cpu_provider()));
    let args: Vec<Expr> = vec![lit("cpu"), lit("cpu_tags")];
    let b = f.call(&args).unwrap();
    assert_eq!(DistinctCacheId(7), b.cache_id);
    assert_eq!(TableId(1), b.table_def.table_id);

    let bad: Vec<Expr> = vec![lit(1i64)];
    assert!(matches!(f.call(&bad).unwrap_err(), CacheCallError::MissingTableName));
    assert_eq!("distinct_cache", DISTINCT_CACHE_UDTF_NAME);
}

#[test]
fn non_literal_arguments_force_the_argument_errors() {
    let f = DistinctCacheFunction::new(DbId(0), std::sync::Arc::new(cpu_provider()));
    let first_bad: Vec<Expr> = vec![col("cpu")];
    assert!(matches!(
        f.call(&first_bad).unwrap_err(),
        CacheCallError::MissingTableName
    ));
    let second_bad: Vec<Expr> = vec![lit("cpu"), lit(5i64)];
    assert!(matches!(
        f.call(&second_bad).unwrap_err(),
        CacheCallError::InvalidCacheNameArgument
    ));
}
