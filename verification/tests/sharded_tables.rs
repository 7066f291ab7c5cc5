use pgdog::schema::ast::Column;
use pgdog::sharded_tables::{
    LookupResult, LookupStore, LookupTable, OmnishardedTable, ShardedTable, ShardedTables,
    SystemCatalogsBehavior,
};

#[test]
fn test_lookup_cache_is_per_instance() {
    let mut store = LookupStore::new();
    let mut build = || {
        ShardedTables::new(vec![], vec![], false, SystemCatalogsBehavior::default(), &mut store)
    };

    // Each `ShardedTables` gets its own cache: clusters rebuilt on
    // config reload start with an empty one.
    let first = build();
    let second = build();

    let table = LookupTable {
        schema: None,
        name: Some("tenants".into()),
        column: "tenant_id".into(),
    };
    first
        .lookup_cache()
        .insert(&mut store, table.clone(), "child".into(), "root".into());

    assert!(first.lookup_cache().get(&store, &table, "child").is_some());
    assert!(second.lookup_cache().get(&store, &table, "child").is_none());

    // Clones of the same instance share it.
    assert!(first.clone().lookup_cache().get(&store, &table, "child").is_some());
}

#[test]
fn clones_see_what_is_cached_and_dropped_later() {
    let mut store = LookupStore::new();
    let sharded = ShardedTable {
        name: Some("orders".into()),
        column: "tenant_id".into(),
        lookup_query: Some("SELECT shard_id FROM tenants WHERE id = $1".into()),
        ..Default::default()
    };
    let first = ShardedTables::from(vec![sharded.clone()], &mut store);
    let other = ShardedTables::from(vec![sharded.clone()], &mut store);
    let clone = first.clone();
    for tables in [&first, &other] {
        tables.lookup_cache().insert(
            &mut store,
            sharded.lookup_table(),
            "11".into(),
            "0".into(),
        );
    }
    let cached = |store: &LookupStore, tables: &ShardedTables| {
        tables.lookup_cache().get_for_table(store, &sharded, "11").cloned()
    };
    assert_eq!(cached(&store, &clone).as_deref(), Some("0"));

    clone.invalidate_lookup_keys(&mut store, &vec!["11".into()]);
    assert_eq!(cached(&store, &first), None);
    assert_eq!(cached(&store, &other).as_deref(), Some("0"));
}

#[test]
fn test_invalidate_lookup_keys() {
    let mut store = LookupStore::new();
    let sharded = ShardedTable {
        database: "pgdog".into(),
        name: Some("orders".into()),
        column: "tenant_id".into(),
        lookup_query: Some("SELECT shard_id FROM tenants WHERE id = $1".into()),
        ..Default::default()
    };
    let tables = ShardedTables::new(
        vec![sharded.clone()],
        vec![],
        false,
        SystemCatalogsBehavior::default(),
        &mut store,
    );

    let cache = tables.lookup_cache();
    for value in ["11", "12", "13"] {
        cache.insert(&mut store, sharded.lookup_table(), value.into(), "0".into());
    }

    tables.invalidate_lookup_keys(&mut store, &vec!["11".into(), "12".into()]);

    assert!(cache.get_for_table(&store, &sharded, "11").is_none());
    assert!(cache.get_for_table(&store, &sharded, "12").is_none());
    // Untouched keys stay cached.
    assert!(cache.get_for_table(&store, &sharded, "13").is_some());
}

fn table(lookup_result: LookupResult) -> ShardedTable {
    ShardedTable {
        database: "pgdog".into(),
        column: "org_id".into(),
        lookup_query: Some("SELECT shard_id FROM orgs WHERE id = $1".into()),
        lookup_result,
        ..Default::default()
    }
}

#[test]
fn test_common_mapping_requires_lookup_result_agreement() {
    // Agreement: common mapping exists and carries the result.
    let tables = ShardedTables::new(
        vec![table(LookupResult::Shard), table(LookupResult::Shard)],
        vec![],
        false,
        SystemCatalogsBehavior::default(),
        &mut LookupStore::new(),
    );
    let mapping = tables.common_mapping().unwrap();
    assert_eq!(mapping.lookup.as_ref().unwrap().result, LookupResult::Shard);

    // Disagreement: same query, different interpretation. No
    // common mapping, so bare keys can't be routed ambiguously.
    let tables = ShardedTables::new(
        vec![table(LookupResult::Shard), table(LookupResult::Value)],
        vec![],
        false,
        SystemCatalogsBehavior::default(),
        &mut LookupStore::new(),
    );
    assert!(tables.common_mapping().is_none());
}

fn column(schema: Option<&str>, table: Option<&str>, name: &str) -> Column {
    Column {
        name: name.into(),
        table: table.map(|t| t.into()),
        schema: schema.map(|s| s.into()),
    }
}

#[test]
fn a_column_finds_its_table() {
    let tables = ShardedTables::new(
        vec![
            ShardedTable {
                name: Some("orders".into()),
                schema: Some("shop".into()),
                column: "id".into(),
                ..Default::default()
            },
            ShardedTable {
                column: "tenant_id".into(),
                ..Default::default()
            },
        ],
        vec![],
        false,
        SystemCatalogsBehavior::default(),
        &mut LookupStore::new(),
    );

    let found = |c: Column| tables.get_table(&c).map(|t| t.column.clone());
    assert_eq!(found(column(Some("shop"), Some("orders"), "id")).as_deref(), Some("id"));
    assert_eq!(found(column(Some("other"), Some("orders"), "id")), None);
    assert_eq!(found(column(Some("shop"), Some("users"), "id")), None);
    assert_eq!(
        found(column(None, Some("anything"), "tenant_id")).as_deref(),
        Some("tenant_id")
    );
    assert_eq!(found(column(None, None, "email")), None);
}

#[test]
fn omnisharded_tables_know_how_they_are_routed() {
    let omni = |name: &str, sticky_routing| OmnishardedTable {
        name: name.into(),
        sticky_routing,
    };
    let tables = ShardedTables::new(
        vec![],
        vec![omni("settings", true), omni("flags", false)],
        true,
        SystemCatalogsBehavior::Sharded,
        &mut LookupStore::new(),
    );
    assert_eq!(tables.is_omnisharded_sticky(&"settings".to_string()), Some(true));
    assert_eq!(tables.is_omnisharded_sticky(&"flags".to_string()), Some(false));
    assert_eq!(tables.is_omnisharded_sticky(&"orders".to_string()), None);
    assert!(tables.is_omnisharded_sticky_default());
    assert!(tables.is_system_catalog_sharded());
    assert!(!ShardedTables::default(&mut LookupStore::new()).is_system_catalog_sharded());
}

#[test]
fn tables_alone_have_the_defaults() {
    let tables = ShardedTables::from(vec![table(LookupResult::Shard)], &mut LookupStore::new());
    assert_eq!(tables.tables().len(), 1);
    assert_eq!(tables.omnishards().slot_count(), 0);
    assert!(!tables.is_omnisharded_sticky_default());
    assert!(!tables.is_system_catalog_sharded());
}
