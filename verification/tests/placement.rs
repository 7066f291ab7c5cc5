use std::sync::Arc;

use pgdog::cluster::{Cluster, Shard};
use pgdog::config::DataType;
use pgdog::replication::add_shard::{
    destination_is_empty, destination_tables_query, placement_stable, provisioning_lock,
    provisioning_lock_query, ADD_SHARD_LOCK,
};
use pgdog::replication::error::Error;
use pgdog::replication::move_keys::{parse_bigint, placement_by_lookup, KeyMoveScope, MoveTable};
use pgdog::replication::parallel_sync::delete_moved_rows;
use pgdog::replication::table::PublicationTable;
use pgdog::sharded_tables::{
    ListEntry, LookupResult, LookupStore, Mapping, ShardedTable, ShardedTables,
    SystemCatalogsBehavior,
};

fn cluster_with(tables: Vec<ShardedTable>) -> Cluster {
    Cluster {
        name: "pgdog".into(),
        database: "pgdog".into(),
        shards: vec![Arc::new(Shard { pools: vec![] }), Arc::new(Shard { pools: vec![] })],
        sharded_tables: ShardedTables::new(
            tables,
            vec![],
            false,
            SystemCatalogsBehavior::default(),
            &mut LookupStore::new(),
        ),
        two_pc_enabled: false,
    }
}

fn table() -> ShardedTable {
    ShardedTable {
        database: "pgdog".into(),
        column: "org_id".into(),
        data_type: DataType::Varchar,
        ..Default::default()
    }
}

#[test]
fn test_placement_stable() {
    // Fixed lookup: stable.
    let stable = ShardedTable {
        lookup_query: Some("SELECT shard_id FROM orgs WHERE id = $1".into()),
        lookup_result: LookupResult::Shard,
        ..table()
    };
    placement_stable(&cluster_with(vec![stable.clone()])).unwrap();

    // Hash routing (default): refused.
    assert!(placement_stable(&cluster_with(vec![table()])).is_err());

    // A value-mode lookup still hashes: refused.
    let value_lookup = ShardedTable {
        lookup_query: Some("SELECT parent FROM orgs WHERE id = $1".into()),
        lookup_result: LookupResult::Value,
        ..table()
    };
    assert!(placement_stable(&cluster_with(vec![value_lookup])).is_err());

    // One stable, one hashed: refused.
    assert!(placement_stable(&cluster_with(vec![stable, table()])).is_err());

    // No sharded tables at all: nothing to destabilize.
    placement_stable(&cluster_with(vec![])).unwrap();
}

#[test]
fn test_broadcast_null_does_not_exempt_placement() {
    // broadcast_null only covers the NULL-key rows; the keyed rows
    // still move under hash routing, so the table is refused.
    let hashed_hybrid = ShardedTable {
        broadcast_null: true,
        ..table()
    };
    assert!(placement_stable(&cluster_with(vec![hashed_hybrid])).is_err());
}

#[test]
fn a_mapping_is_stable() {
    let mapped = ShardedTable {
        mapping: Some(Mapping::List(vec![ListEntry {
            value: "acme".into(),
            shard: 1,
        }])),
        ..table()
    };
    placement_stable(&cluster_with(vec![mapped])).unwrap();
}

#[test]
fn a_refusal_names_the_table() {
    match placement_stable(&cluster_with(vec![table()])) {
        Err(Error::PlacementNotStable(what)) => {
            assert_eq!(what, "column \"org_id\"")
        }
        other => panic!("unexpected result {:?}", other),
    }
}

#[test]
fn one_provisioning_runs_at_a_time() {
    assert_eq!(ADD_SHARD_LOCK, 0x7067646f675f6164);
    assert_eq!(
        provisioning_lock_query(),
        "SELECT pg_try_advisory_lock(8099552884487577956)"
    );
    provisioning_lock(&vec!["t".into()]).unwrap();
    assert!(matches!(
        provisioning_lock(&vec!["f".into()]),
        Err(Error::ProvisioningLocked)
    ));
    assert!(matches!(provisioning_lock(&vec![]), Err(Error::ProvisioningLocked)));
}

#[test]
fn a_new_shard_has_no_tables() {
    assert!(destination_tables_query().contains("pg_catalog"));
    destination_is_empty(&vec![]).unwrap();
    assert!(matches!(
        destination_is_empty(&vec!["a".into(), "b".into()]),
        Err(Error::DestinationNotEmpty(2))
    ));
}

fn tables(data_type: DataType) -> Vec<MoveTable> {
    vec![MoveTable {
        schema: "public".into(),
        name: "orders".into(),
        sharding_column: "tenant_id".into(),
        data_type,
    }]
}

#[test]
fn test_keys_canonicalize() {
    let scope =
        KeyMoveScope::new(&vec!["011".into(), "12".into()], 0, 2, tables(DataType::Bigint)).unwrap();
    // Integers canonicalize through i64.
    assert!(scope.contains("11"));
    assert!(!scope.contains("011"));
    assert!(scope.contains(&scope.canonical("012").unwrap()));
    assert!(!scope.contains("13"));

    // UUIDs canonicalize to lowercase.
    let scope = KeyMoveScope::new(
        &vec!["550E8400-E29B-41D4-A716-446655440000".into()],
        0,
        1,
        tables(DataType::Uuid),
    )
    .unwrap();
    assert!(scope.contains("550e8400-e29b-41d4-a716-446655440000"));

    // A key that doesn't parse as the column type is refused.
    assert!(
        KeyMoveScope::new(&vec!["not_a_number".into()], 0, 1, tables(DataType::Bigint)).is_err()
    );
}

#[test]
fn test_predicate_sql() {
    let scope = KeyMoveScope::new(
        &vec!["O'Brien".into(), "Acme".into()],
        0,
        1,
        tables(DataType::Varchar),
    )
    .unwrap();
    assert_eq!(
        scope.predicate_sql("tenant_id"),
        r#""tenant_id" = ANY(ARRAY['Acme', 'O''Brien'])"#
    );
}

#[test]
fn test_data_types_must_agree() {
    let mut mixed = tables(DataType::Bigint);
    mixed.push(MoveTable {
        schema: "public".into(),
        name: "users".into(),
        sharding_column: "tenant_id".into(),
        data_type: DataType::Varchar,
    });
    assert!(KeyMoveScope::new(&vec!["11".into()], 0, 1, mixed).is_err());
    assert!(KeyMoveScope::new(&vec!["11".into()], 0, 1, vec![]).is_err());
}

#[test]
fn test_placement_by_lookup() {
    let cluster = |lookup_result| {
        let table = ShardedTable {
            database: "pgdog".into(),
            column: "tenant_id".into(),
            lookup_query: Some("SELECT shard_id FROM tenants WHERE id = $1".into()),
            lookup_result,
            ..Default::default()
        };
        cluster_with(vec![table])
    };

    placement_by_lookup(&cluster(LookupResult::Shard)).unwrap();
    assert!(placement_by_lookup(&cluster(LookupResult::Value)).is_err());
}

#[test]
fn integers_are_read_as_they_are_written() {
    assert_eq!(parse_bigint("9223372036854775807"), Some(i64::MAX));
    assert_eq!(parse_bigint("-9223372036854775808"), Some(i64::MIN));
    assert_eq!(parse_bigint("+7"), Some(7));
    assert_eq!(parse_bigint("9223372036854775808"), None);
    assert_eq!(parse_bigint("-"), None);
    assert_eq!(parse_bigint(""), None);
    assert_eq!(parse_bigint(" 1"), None);
}

#[test]
fn a_canonical_key_is_its_own_canonical_form() {
    let scope =
        KeyMoveScope::new(&vec!["-0012".into()], 0, 2, tables(DataType::Bigint)).unwrap();
    let once = scope.canonical("-0012").unwrap();
    assert_eq!(once, "-12");
    assert_eq!(scope.canonical(&once).unwrap(), once);
}

#[test]
fn a_key_is_found_however_it_is_written() {
    let upper = "550E8400-E29B-41D4-A716-446655440000";
    let plain = "550e8400e29b41d4a716446655440000";
    let scope = KeyMoveScope::new(&vec![upper.into()], 0, 1, tables(DataType::Uuid)).unwrap();
    assert!(scope.contains(&scope.canonical(plain).unwrap()));
    assert!(!scope.contains(plain));
}

#[test]
fn a_uuid_is_read_in_every_form() {
    let groups = "550e8400-e29b-41d4-a716-446655440000";
    let scope = KeyMoveScope::new(&vec![groups.into()], 0, 1, tables(DataType::Uuid)).unwrap();
    for form in [
        "550e8400e29b41d4a716446655440000",
        "550E8400-E29B-41D4-A716-446655440000",
        "{550e8400-e29b-41D4-a716-446655440000}",
        "urn:uuid:550e8400-e29b-41d4-a716-446655440000",
        "URN:Uuid:550e8400-e29b-41d4-a716-446655440000",
    ] {
        assert_eq!(scope.canonical(form).unwrap(), groups, "{form}");
    }
    for form in [
        "",
        "550e8400e29b41d4a71644665544000",
        "550e8400e29b41d4a71644665544000g",
        "550e8400-e29b-41d4-a716-44665544000é",
        "550e8400-e29b-41d4-a716446655440000-",
        "{550e8400e29b41d4a716446655440000}",
        "(550e8400-e29b-41d4-a716-446655440000)",
        "urn:guid:550e8400-e29b-41d4-a716-446655440000",
        " 550e8400-e29b-41d4-a716-446655440000",
    ] {
        assert!(scope.canonical(form).is_err(), "{form}");
    }
}

#[test]
fn the_order_of_the_keys_does_not_matter() {
    let one = KeyMoveScope::new(&vec!["2".into(), "10".into()], 0, 1, tables(DataType::Bigint));
    let two = KeyMoveScope::new(
        &vec!["10".into(), "2".into(), "02".into()],
        0,
        1,
        tables(DataType::Bigint),
    );
    assert_eq!(one.unwrap().predicate_sql("id"), two.unwrap().predicate_sql("id"));
}

#[test]
fn bad_keys_are_named() {
    match KeyMoveScope::new(&vec!["zz".into()], 0, 1, tables(DataType::Uuid)) {
        Err(Error::KeyMoveBadKey { data_type, value }) => {
            assert_eq!(data_type, DataType::Uuid);
            assert_eq!(value, "zz");
        }
        other => panic!("unexpected result {:?}", other),
    }
    assert!(matches!(
        KeyMoveScope::new(&vec!["1".into()], 0, 1, vec![]),
        Err(Error::KeyMoveNoTables)
    ));
}

#[test]
fn moved_rows_are_deleted_by_key() {
    let scope = KeyMoveScope::new(&vec!["11".into()], 0, 2, tables(DataType::Bigint)).unwrap();
    assert_eq!(scope.source(), 0);
    assert_eq!(scope.target(), 2);
    let orders = PublicationTable {
        schema: "public".into(),
        name: "orders".into(),
        ..Default::default()
    };
    assert_eq!(
        delete_moved_rows(&orders, &scope).unwrap(),
        format!(r#"DELETE FROM "public"."orders" WHERE {}"#, scope.predicate_sql("tenant_id"))
    );
    let users = PublicationTable {
        schema: "public".into(),
        name: "users".into(),
        ..Default::default()
    };
    assert!(delete_moved_rows(&users, &scope).is_err());
}
