use std::sync::Arc;

use pgdog::assoc::AssocMap;
use pgdog::cluster::{Address, Cluster, Databases, Pool, Role, ServerAuth, Shard};
use pgdog::config::{CopyFormat, DataType};
use pgdog::replication::cutover::{Cutover, CutoverEvent, CutoverState, CutoverStep, Stage};
use pgdog::replication::data_sync::{shard_copies, SyncAction, SyncEvent};
use pgdog::replication::dependencies::dependency_order;
use pgdog::replication::error::{BackendError, Error, ErrorResponse, TwoPcTransaction};
use pgdog::replication::hybrid::HybridNullTable;
use pgdog::replication::move_keys::{KeyMoveScope, MoveTable};
use pgdog::replication::orchestrator::{
    should_cutover, CutoverAction, CutoverConfig, CutoverReason, CutoverTimeoutAction,
    Orchestrator,
};
use pgdog::replication::parallel_sync::{
    destination_has_rows, leftover_warning, may_start, probe_query, Cleanup, CopyAction, CopyEvent,
    ParallelSync, ParallelSyncManager,
};
use pgdog::replication::publication::{
    create_publication, drop_publication, publication_created, row_filters_query,
    validate_row_filters, validate_tables, Created,
};
use pgdog::replication::publisher::{first_error, merge_table_lsns, Publisher};
use pgdog::replication::schema_sync::{
    execute, phase, SchemaSync, SchemaSyncPhase, StatementOutcome,
};
use pgdog::replication::table::{
    Key, Lsn, PublicationTable, PublicationTableColumn, ReplicaIdentity, Table,
};
use pgdog::replication::tuple::Oid;
use pgdog::schema::pg_dump::{Statement, SyncState};
use pgdog::sharded_tables::{LookupStore, ShardedTable, ShardedTables, SystemCatalogsBehavior};

fn make_table(schema: &str, name: &str, lsn: i64) -> Table {
    Table {
        publication: "test".to_string(),
        table: PublicationTable {
            schema: schema.to_string(),
            name: name.to_string(),
            attributes: String::new(),
            parent_schema: String::new(),
            parent_name: String::new(),
        },
        identity: ReplicaIdentity {
            oid: Oid(1),
            identity: String::new(),
            kind: String::new(),
        },
        columns: vec![PublicationTableColumn {
            oid: 1,
            name: "tenant_id".to_string(),
            type_oid: Oid(20),
            identity: true,
        }],
        lsn: Lsn::from_i64(lsn),
        null_filter_column: None,
    }
}

fn pool(role: Role, resharding_only: bool) -> Pool {
    Pool {
        addr: Address {
            host: "127.0.0.1".into(),
            port: 5432,
            user: "pgdog".into(),
            database_name: "pgdog".into(),
            server_auth: ServerAuth::Password,
        },
        role,
        resharding_only,
    }
}

fn cluster(database: &str) -> Arc<Cluster> {
    let shard = || {
        Arc::new(Shard {
            pools: vec![pool(Role::Primary, false), pool(Role::Replica, false)],
        })
    };
    Arc::new(Cluster {
        name: "pgdog".into(),
        database: database.into(),
        shards: vec![shard(), shard()],
        sharded_tables: ShardedTables::new(
            vec![ShardedTable {
                database: database.into(),
                name: Some("sharded".into()),
                column: "tenant_id".into(),
                ..Default::default()
            }],
            vec![],
            false,
            SystemCatalogsBehavior::default(),
            &mut LookupStore::new(),
        ),
        two_pc_enabled: false,
    })
}

fn databases() -> Databases {
    let mut databases = Databases::new();
    databases.insert("source".into(), cluster("source"));
    databases.insert("destination".into(), cluster("destination"));
    databases
}

#[test]
fn annotate_hybrid_tables_sets_filter_and_validates_column() {
    let hybrid = |schema: Option<&str>, column: &str| {
        Publisher::new("test", "slot".into()).with_hybrid_tables(vec![HybridNullTable {
            schema: schema.map(|s| s.to_string()),
            name: "packages".to_string(),
            column: column.to_string(),
        }])
    };
    let publisher = hybrid(None, "tenant_id");

    let tables = vec![
        make_table("public", "packages", 0),
        make_table("public", "orders", 0),
    ];
    let tables = publisher.annotate_hybrid_tables(tables).unwrap();
    assert_eq!(tables[0].null_filter_column.as_deref(), Some("tenant_id"));
    assert_eq!(tables[1].null_filter_column, None);

    // A leaf partition matches through its parent (destination) name.
    let mut partition = make_table("public", "packages_p0", 0);
    partition.table.parent_schema = "public".to_string();
    partition.table.parent_name = "packages".to_string();
    let tables = publisher.annotate_hybrid_tables(vec![partition]).unwrap();
    assert_eq!(tables[0].null_filter_column.as_deref(), Some("tenant_id"));

    // A schema in the config must match.
    let scoped = hybrid(Some("other"), "tenant_id");
    let tables = vec![make_table("public", "packages", 0)];
    let tables = scoped.annotate_hybrid_tables(tables).unwrap();
    assert_eq!(tables[0].null_filter_column, None);

    // Missing filter column is refused.
    let missing = hybrid(None, "no_such_column");
    let tables = vec![make_table("public", "packages", 0)];
    assert!(matches!(
        missing.annotate_hybrid_tables(tables),
        Err(Error::BroadcastNullColumnMissing { .. })
    ));
}

fn existing_lsns() -> AssocMap<Key, Lsn> {
    let mut existing = AssocMap::new();
    existing.insert(
        Key {
            schema: "copy_data".to_string(),
            name: "users".to_string(),
        },
        Lsn::from_i64(123),
    );
    existing
}

#[test]
fn merge_table_lsns_preserves_existing_offsets() {
    let existing = existing_lsns();

    let merged = merge_table_lsns(vec![make_table("copy_data", "users", 0)], Some(&existing));

    assert_eq!(merged[0].lsn, Lsn::from_i64(123));
}

#[test]
fn merge_table_lsns_leaves_unknown_tables_unset() {
    let existing = existing_lsns();

    let merged = merge_table_lsns(vec![make_table("copy_data", "orders", 0)], Some(&existing));

    assert_eq!(merged[0].lsn, Lsn::default());
}

#[test]
fn distribute_omnisharded_tables_initializes_missing_shards() {
    let mut publisher = Publisher::new("test", "slot".into());
    let table = make_table("public", "omni_only", 0);

    publisher.distribute_omnisharded_tables(vec![table], 2);

    assert!(
        publisher.tables(0).is_ok(),
        "omni-only publications should initialize shard 0 even when no sharded tables exist"
    );
    assert!(
        publisher.tables(1).is_ok(),
        "data_sync iterates every shard and needs an entry for shard 1 even if it is empty"
    );
    assert_eq!(
        publisher.tables(0).unwrap().len() + publisher.tables(1).unwrap().len(),
        1,
        "the omnisharded table should still be assigned exactly once"
    );
    assert!(matches!(publisher.tables(2), Err(Error::NoReplicationTables(2))));
}

#[test]
fn tables_are_dealt_in_turn() {
    let mut publisher = Publisher::new("test", "slot".into());
    let tables: Vec<Table> = ["a", "b", "c", "d", "e"]
        .iter()
        .map(|name| make_table("public", name, 0))
        .collect();
    publisher.distribute_omnisharded_tables(tables, 2);
    assert_eq!(publisher.tables(0).unwrap().len(), 3);
    assert_eq!(publisher.tables(1).unwrap().len(), 2);
}

#[test]
fn data_sync_rejects_no_pk_table_before_slots_created() {
    let table = |name: &str| {
        let mut table = make_table("pgdog", name, 0);
        table.columns[0].identity = false;
        table
    };
    let load = || {
        vec![
            table("publication_test_no_pk_3"),
            table("publication_test_no_pk"),
            table("publication_test_no_pk_2"),
        ]
    };
    let mut publisher = Publisher::new("publication_no_pk_validation", "sync_test_slot".into());
    let mut sync = Publisher::data_sync(2);

    // Validation must fire before the copy begins.
    let action = sync.next(
        &mut publisher,
        &cluster("destination").sharded_tables,
        SyncEvent::Loaded { tables: vec![load(), load()], cancelled: false },
    );

    // Errors are sorted by table name.
    match action {
        SyncAction::Fail(err) => assert_eq!(
            err.to_text(),
            "Table validation failed:\n\
            \ttable \"pgdog\".\"publication_test_no_pk\": has no replica identity columns\n\
            \ttable \"pgdog\".\"publication_test_no_pk_2\": has no replica identity columns\n\
            \ttable \"pgdog\".\"publication_test_no_pk_3\": has no replica identity columns",
        ),
        other => panic!("data_sync must fail for a publication with no-pk tables: {:?}", other),
    }
    assert!(
        publisher.needs_slots(),
        "no replication slots should be created when valid() fails",
    );
}

#[test]
fn data_sync_rejects_replica_identity_nothing() {
    let mut table = make_table("pgdog", "pub_test_nothing", 0);
    table.identity.identity = "n".into();
    let mut publisher = Publisher::new(
        "pub_full_identity_nothing_test",
        "pub_full_identity_nothing_slot".into(),
    );
    let mut sync = Publisher::data_sync(1);

    let action = sync.next(
        &mut publisher,
        &cluster("destination").sharded_tables,
        SyncEvent::Loaded { tables: vec![vec![table]], cancelled: false },
    );

    match action {
        SyncAction::Fail(err) => assert!(
            err.to_text().contains("REPLICA IDENTITY NOTHING"),
            "expected NOTHING in error message, got: {err:?}"
        ),
        other => panic!("data_sync must fail for REPLICA IDENTITY NOTHING table: {:?}", other),
    }
    assert!(
        publisher.needs_slots(),
        "no replication slot must be created when NOTHING table is present"
    );
}

#[test]
fn slots_are_created_in_turn_before_the_copies() {
    let rules = cluster("destination").sharded_tables.clone();
    let mut publisher = Publisher::new("test", "slot".into());
    let mut sync = Publisher::data_sync(2);
    let loads = vec![
        vec![make_table("public", "sharded", 0)],
        vec![make_table("public", "sharded", 0)],
    ];
    assert!(matches!(
        sync.next(&mut publisher, &rules, SyncEvent::Loaded { tables: loads, cancelled: false }),
        SyncAction::CreateSlot { shard: 0 }
    ));
    let created = |lsn| SyncEvent::SlotCreated { lsn, cancelled: false };
    assert!(matches!(
        sync.next(&mut publisher, &rules, created(10)),
        SyncAction::CreateSlot { shard: 1 }
    ));
    assert!(matches!(
        sync.next(&mut publisher, &rules, created(20)),
        SyncAction::StartShards
    ));
    assert!(!publisher.needs_slots());
    let copied = |shard| SyncEvent::Copied {
        shard,
        tables: vec![make_table("public", "sharded", 99)],
    };
    assert!(matches!(sync.next(&mut publisher, &rules, copied(1)), SyncAction::Wait));
    assert!(matches!(sync.next(&mut publisher, &rules, copied(0)), SyncAction::Done));
    assert_eq!(publisher.tables(1).unwrap()[0].lsn, Lsn::from_i64(99));
    let mut slots = publisher.cleanup();
    slots.sort();
    assert_eq!(slots, vec![0, 1]);
    assert!(publisher.cleanup().is_empty());
    assert!(publisher.needs_slots());
}

#[test]
fn a_sync_that_is_called_off_makes_no_slots() {
    let rules = cluster("destination").sharded_tables.clone();
    let mut publisher = Publisher::new("test", "slot".into());
    let mut sync = Publisher::data_sync(1);
    let loads = vec![vec![make_table("public", "sharded", 0)]];
    assert!(matches!(
        sync.next(&mut publisher, &rules, SyncEvent::Loaded { tables: loads, cancelled: true }),
        SyncAction::Fail(Error::DataSyncAborted)
    ));
    assert!(publisher.needs_slots());
}

#[test]
fn what_was_loaded_before_a_failure_stays() {
    let rules = cluster("destination").sharded_tables.clone();
    let mut publisher = Publisher::new("test", "slot".into());
    let mut sync = Publisher::replicate(2);
    let action = sync.next(
        &mut publisher,
        &rules,
        SyncEvent::LoadFailed {
            tables: vec![vec![make_table("public", "sharded", 0)]],
            error: Error::NoPrimary,
        },
    );
    assert!(matches!(action, SyncAction::Fail(Error::NoPrimary)));
    assert_eq!(publisher.tables(0).unwrap().len(), 1);
    assert!(publisher.tables(1).is_err());

    // A table that can't be filtered came first.
    let mut publisher =
        Publisher::new("test", "slot".into()).with_hybrid_tables(vec![HybridNullTable {
            schema: None,
            name: "packages".into(),
            column: "no_such_column".into(),
        }]);
    let mut sync = Publisher::replicate(2);
    let action = sync.next(
        &mut publisher,
        &rules,
        SyncEvent::LoadFailed {
            tables: vec![vec![make_table("public", "packages", 0)]],
            error: Error::NoPrimary,
        },
    );
    assert!(matches!(
        action,
        SyncAction::Fail(Error::BroadcastNullColumnMissing { .. })
    ));
    assert!(publisher.tables(0).is_err());
}

#[test]
fn copies_come_from_replicas() {
    let mut publisher = Publisher::new("test", "slot".into());
    publisher.set_tables(0, vec![make_table("public", "sharded", 0)]);
    let shard = Shard {
        pools: vec![
            pool(Role::Primary, false),
            pool(Role::Replica, false),
            pool(Role::Replica, true),
        ],
    };
    let (tables, pools) = shard_copies(&publisher, &shard, 0, &vec![]).unwrap();
    assert_eq!(tables.len(), 1);
    // A pool that is set aside for resharding comes first.
    assert_eq!(pools, vec![2]);
}

fn table_key(name: &str) -> Key {
    Key {
        schema: "public".into(),
        name: name.into(),
    }
}

fn table_names(tables: &[Table]) -> Vec<&str> {
    tables.iter().map(|t| t.table.name.as_str()).collect()
}

#[test]
fn tables_that_are_referred_to_come_first() {
    let tables = |names: &[&str]| -> Vec<Table> {
        names.iter().map(|n| make_table("public", n, 0)).collect()
    };
    let references = vec![
        (table_key("items"), table_key("orders")),
        (table_key("orders"), table_key("users")),
        (table_key("users"), table_key("users")),
        (table_key("orders"), table_key("elsewhere")),
    ];
    let out = dependency_order(tables(&["items", "orders", "plain", "users"]), &references);
    assert_eq!(table_names(&out), vec!["plain", "users", "orders", "items"]);

    // What is in order stays.
    let out = dependency_order(tables(&["users", "plain", "orders", "items"]), &references);
    assert_eq!(table_names(&out), vec!["users", "plain", "orders", "items"]);

    // A circle loses no table.
    let circle = vec![
        (table_key("a"), table_key("b")),
        (table_key("b"), table_key("a")),
    ];
    assert_eq!(dependency_order(tables(&["a", "b"]), &circle).len(), 2);
}

#[test]
fn a_key_move_copies_in_the_order_of_references() {
    let scope = KeyMoveScope::new(
        &vec!["11".to_string()],
        0,
        1,
        vec![MoveTable {
            schema: "public".into(),
            name: "orders".into(),
            sharding_column: "tenant_id".into(),
            data_type: DataType::Bigint,
        }],
    )
    .unwrap();
    let shard = Shard {
        pools: vec![pool(Role::Primary, false)],
    };
    let references = vec![(table_key("items"), table_key("orders"))];
    let mut publisher = Publisher::new("test", "slot".into());
    publisher.set_tables(
        0,
        vec![make_table("public", "items", 0), make_table("public", "orders", 0)],
    );

    let (tables, _) = shard_copies(&publisher, &shard, 0, &references).unwrap();
    assert_eq!(table_names(&tables), vec!["items", "orders"]);

    assert!(!publisher.moves_keys());
    publisher.set_key_move(Arc::new(scope));
    assert!(publisher.moves_keys());
    let (tables, _) = shard_copies(&publisher, &shard, 0, &references).unwrap();
    assert_eq!(table_names(&tables), vec!["orders", "items"]);

    // The stream is told of the keys.
    publisher.slot_created(0, 5);
    let stream = publisher.open_stream(0, 1, &cluster("destination")).unwrap();
    assert!(stream.key_move().unwrap().contains("11"));
}

#[test]
fn a_key_move_copies_the_rows_of_its_keys() {
    let scope = KeyMoveScope::new(
        &vec!["12".to_string(), "011".to_string()],
        0,
        1,
        vec![MoveTable {
            schema: "public".into(),
            name: "orders".into(),
            sharding_column: "tenant_id".into(),
            data_type: DataType::Bigint,
        }],
    )
    .unwrap();
    let orders = make_table("public", "orders", 0);
    let copy =
        pgdog::replication::copy::Copy::of_keys(&orders, CopyFormat::Binary, &scope).unwrap();
    assert_eq!(
        copy.statement().copy_out(),
        r#"COPY (SELECT "tenant_id" FROM "public"."orders" WHERE "tenant_id" = ANY(ARRAY['11', '12'])) TO STDOUT WITH (FORMAT binary)"#
    );
    let users = make_table("public", "users", 0);
    assert!(matches!(
        pgdog::replication::copy::Copy::of_keys(&users, CopyFormat::Binary, &scope),
        Err(Error::KeyMoveNoTables)
    ));
}

#[test]
fn tables_of_every_shard_are_validated() {
    let mut publisher = Publisher::new("test", "slot".into());
    publisher.set_tables(0, vec![make_table("public", "good", 0)]);
    publisher.validate().unwrap();
    // A shard that the source does not have any more.
    let mut bad = make_table("public", "bad", 0);
    bad.identity.identity = "n".into();
    publisher.set_tables(7, vec![bad]);
    match publisher.validate() {
        Err(err) => assert!(err.to_text().contains("\"public\".\"bad\"")),
        other => panic!("unexpected result {:?}", other),
    }
}

// ── Cutover ─────────────────────────────────────────────────────────

const MS: u128 = 1_000_000;

fn config() -> CutoverConfig {
    CutoverConfig {
        traffic_stop_threshold: 1000,
        replication_lag_threshold: 100,
        last_transaction_delay: 500,
        timeout: 10000,
        timeout_action: CutoverTimeoutAction::Abort,
    }
}

fn orchestrator() -> Orchestrator {
    Orchestrator::new(
        &databases(),
        &"source".to_string(),
        &"destination".to_string(),
        "test_pub",
        Some("test_slot".to_string()),
        "random",
    )
    .unwrap()
}

#[test]
fn test_wait_for_replication_exits_when_lag_below_threshold() {
    let mut orchestrator = orchestrator();
    orchestrator.publisher_mut().set_replication_lag(0, 500);
    orchestrator.publisher_mut().set_replication_lag(1, 500);

    // Lag (500) <= threshold (1000): traffic is paused.
    let mut cutover = Cutover::new(config());
    let (step, _) = cutover.next(CutoverEvent::Tick {
        lag: orchestrator.replication_lag(),
        last_transaction: None,
        elapsed: 0,
    });
    assert!(matches!(step, CutoverStep::PauseTraffic));
    assert!(cutover.paused);
}

#[test]
fn test_wait_for_cutover_exits_when_lag_below_threshold() {
    let mut orchestrator = orchestrator();
    orchestrator.publisher_mut().set_replication_lag(0, 50);
    orchestrator.publisher_mut().set_replication_lag(1, 50);

    let result = should_cutover(&config(), orchestrator.replication_lag(), None, 100 * MS);
    assert_eq!(result, CutoverAction::Go(CutoverReason::Lag));

    // Lag (50) <= threshold (100): the streams are stopped.
    let mut cutover = Cutover {
        stage: Stage::WaitForCutover,
        paused: true,
        config: config(),
    };
    let (step, _) = cutover.next(CutoverEvent::Tick {
        lag: orchestrator.replication_lag(),
        last_transaction: None,
        elapsed: 100 * MS,
    });
    assert!(matches!(step, CutoverStep::StopStreams), "{:?}", step);
}

#[test]
fn test_wait_for_cutover_exits_when_last_transaction_old() {
    let mut config = config();
    config.replication_lag_threshold = 10;
    config.last_transaction_delay = 100;

    let mut orchestrator = orchestrator();
    orchestrator.publisher_mut().set_replication_lag(0, 1000);
    orchestrator.publisher_mut().set_last_transaction(Some(1000 * MS));

    let result = should_cutover(
        &config,
        orchestrator.replication_lag(),
        orchestrator.publisher().last_transaction(1200 * MS),
        100 * MS,
    );
    assert_eq!(result, CutoverAction::Go(CutoverReason::LastTransaction));
}

#[test]
fn test_should_cutover_when_no_transaction() {
    let mut config = config();
    config.replication_lag_threshold = 10;
    config.last_transaction_delay = 100;

    let mut orchestrator = orchestrator();
    orchestrator.publisher_mut().set_replication_lag(0, 1000);
    orchestrator.publisher_mut().set_last_transaction(None);

    let result = should_cutover(
        &config,
        orchestrator.replication_lag(),
        orchestrator.publisher().last_transaction(5 * MS),
        100 * MS,
    );
    assert_eq!(result, CutoverAction::Go(CutoverReason::LastTransaction));
}

#[test]
fn test_should_not_cutover_when_lag_above_threshold_and_recent_transaction() {
    let result = should_cutover(&config(), Some(1000), Some(50 * MS), 100 * MS);
    assert!(matches!(result, CutoverAction::NoGo { .. }));
}

#[test]
fn test_should_not_cutover_when_timeout_not_reached() {
    let mut config = config();
    config.timeout = 1000;
    config.replication_lag_threshold = 10;
    // Elapsed is 999ms, timeout is 1000ms.
    let result = should_cutover(&config, Some(1000), Some(100 * MS), 999 * MS);
    assert!(matches!(result, CutoverAction::NoGo { .. }));
    let result = should_cutover(&config, Some(1000), Some(100 * MS), 1000 * MS);
    assert_eq!(result, CutoverAction::Go(CutoverReason::Timeout));
}

#[test]
fn test_should_not_cutover_when_lag_just_above_threshold() {
    let result = should_cutover(&config(), Some(101), Some(50 * MS), 100 * MS);
    assert!(matches!(result, CutoverAction::NoGo { .. }));
}

#[test]
fn should_not_cutover_before_every_shard_reports() {
    let mut config = config();
    config.replication_lag_threshold = 1000;

    let mut orchestrator = orchestrator();
    orchestrator.publisher_mut().set_last_transaction(Some(0));
    let elapsed = 100 * MS;
    let recent = Some(0);

    // No shard has reported: lag is unknown, no cutover.
    assert_eq!(orchestrator.replication_lag(), None);
    assert!(matches!(
        should_cutover(&config, orchestrator.replication_lag(), recent, elapsed),
        CutoverAction::NoGo { .. }
    ));

    // Only shard 0 reported; shard 1 is missing, so the lag stays unknown.
    orchestrator.publisher_mut().set_replication_lag(0, 500);
    assert_eq!(orchestrator.replication_lag(), None);
    assert!(matches!(
        should_cutover(&config, orchestrator.replication_lag(), recent, elapsed),
        CutoverAction::NoGo { .. }
    ));

    // Once every shard has a real, below-threshold measurement, it cuts over.
    orchestrator.publisher_mut().set_replication_lag(1, 400);
    assert_eq!(
        should_cutover(&config, orchestrator.replication_lag(), recent, elapsed),
        CutoverAction::Go(CutoverReason::Lag)
    );
}

/// Goes through a cutover up to a stage, where everything succeeds.
fn cutover_at(stage: Stage) -> Cutover {
    let mut cutover = Cutover::new(config());
    let mut steps = 0;
    while cutover.stage != stage {
        let event = match cutover.stage {
            Stage::WaitForReplication | Stage::WaitForCutover => CutoverEvent::Tick {
                lag: Some(0),
                last_transaction: None,
                elapsed: 0,
            },
            _ => CutoverEvent::Succeeded,
        };
        cutover.next(event);
        steps += 1;
        assert!(steps < 20);
    }
    cutover
}

#[test]
fn traffic_moves_while_it_is_paused() {
    assert!(cutover_at(Stage::SwitchTraffic).paused);
    assert!(!cutover_at(Stage::Finished).paused);
}

#[test]
fn a_cutover_that_times_out_is_called_off() {
    let mut cutover = cutover_at(Stage::WaitForCutover);
    let (step, state) = cutover.next(CutoverEvent::Tick {
        lag: Some(5000),
        last_transaction: Some(0),
        elapsed: 10000 * MS,
    });
    assert!(matches!(step, CutoverStep::Abort(Error::AbortTimeout)), "{:?}", step);
    assert!(matches!(
        state,
        Some(CutoverState::WaitForCutover { action: CutoverAction::Go(CutoverReason::Timeout) })
    ));
    assert!(!cutover.paused);
}

#[test]
fn a_cutover_that_fails_leaves_traffic_alone() {
    for stage in [
        Stage::CancelQueries,
        Stage::StopStreams,
        Stage::SyncSchema,
        Stage::SwitchTraffic,
        Stage::Refresh,
        Stage::ReverseReplication,
    ] {
        let mut cutover = cutover_at(stage);
        assert!(cutover.paused);
        let (step, state) = cutover.next(CutoverEvent::Failed(Error::NoPrimary));
        assert!(matches!(step, CutoverStep::Abort(Error::NoPrimary)));
        match state {
            Some(CutoverState::Abort { error }) => assert_eq!(error, "shard has no primary"),
            other => panic!("unexpected state {:?}", other),
        }
        assert!(!cutover.paused);
    }
}

#[test]
fn a_cutover_can_be_called_off_while_it_waits() {
    for stage in [Stage::WaitForReplication, Stage::CancelQueries, Stage::WaitForCutover] {
        let mut cutover = cutover_at(stage);
        let (step, state) = cutover.next(CutoverEvent::Cancelled);
        assert!(matches!(step, CutoverStep::Stop));
        match state {
            Some(CutoverState::Abort { error }) => assert_eq!(error, "stopped before cutover"),
            other => panic!("unexpected state {:?}", other),
        }
        assert!(!cutover.paused);
    }
}

#[test]
fn streams_that_break_early_leave_traffic_running() {
    let mut cutover = Cutover::new(config());
    let (step, state) = cutover.next(CutoverEvent::StreamsFailed(Error::NotConnected));
    assert!(matches!(step, CutoverStep::Fail(Error::NotConnected)));
    assert!(state.is_none());

    let mut cutover = cutover_at(Stage::WaitForCutover);
    let (step, _) = cutover.next(CutoverEvent::StreamsFailed(Error::NotConnected));
    assert!(matches!(step, CutoverStep::Abort(Error::NotConnected)));
}

#[test]
fn an_unknown_distance_is_not_close() {
    let mut cutover = Cutover::new(config());
    let (step, state) = cutover.next(CutoverEvent::Tick {
        lag: None,
        last_transaction: None,
        elapsed: 0,
    });
    assert!(matches!(step, CutoverStep::Wait));
    assert!(state.is_none());
    assert!(!cutover.paused);
}

#[test]
fn a_cutover_may_be_forced_by_its_timeout() {
    let mut cutover = cutover_at(Stage::WaitForCutover);
    cutover.config.timeout_action = CutoverTimeoutAction::Cutover;
    let (step, _) = cutover.next(CutoverEvent::Tick {
        lag: Some(5000),
        last_transaction: Some(0),
        elapsed: 10000 * MS,
    });
    assert!(matches!(step, CutoverStep::StopStreams), "{:?}", step);
}

#[test]
fn an_orchestrator_names_its_slot() {
    let orchestrator = Orchestrator::new(
        &databases(),
        &"source".to_string(),
        &"destination".to_string(),
        "test_pub",
        None,
        "abcdef",
    )
    .unwrap();
    assert_eq!(orchestrator.replication_slot(), "__pgdog_repl_abcdef");
    assert_eq!(
        orchestrator.databases(),
        ("source".to_string(), "destination".to_string())
    );
    assert!(!orchestrator.is_schema_only());
    assert!(orchestrator.schema_only().is_schema_only());
}

#[test]
fn a_provisioning_orchestrator_reads_one_shard() {
    let databases = databases();
    let destination = cluster("new_shard");
    let mut orchestrator = Orchestrator::for_provisioning(
        &databases,
        &"source".to_string(),
        destination,
        "test_pub",
        0,
        "abcdef",
    )
    .unwrap();
    assert_eq!(orchestrator.source().shards.len(), 1);
    assert_eq!(orchestrator.destination().database, "new_shard");
    // The new shard is in no registry, and is not looked up there.
    orchestrator.refresh(&databases).unwrap();
    assert_eq!(orchestrator.source().shards.len(), 1);
    assert_eq!(orchestrator.destination().database, "new_shard");
    assert_eq!(orchestrator.to_text(), "source -> new_shard");

    let missing = Orchestrator::for_provisioning(
        &databases,
        &"source".to_string(),
        cluster("new_shard"),
        "test_pub",
        7,
        "abcdef",
    );
    assert!(missing.is_err());
}

#[test]
fn unknown_databases_are_refused() {
    let result = Orchestrator::new(
        &databases(),
        &"nowhere".to_string(),
        &"destination".to_string(),
        "test_pub",
        None,
        "abcdef",
    );
    assert!(matches!(result, Err(Error::Backend(BackendError::NoDatabase(_)))));
}

// ── Copies ──────────────────────────────────────────────────────────

#[test]
fn a_copy_is_tried_again_later_and_later() {
    let mut sync = ParallelSync::new(3, 1000, false, false);
    let failed = || CopyEvent::Failed(Error::NotConnected);
    match sync.next(failed()) {
        CopyAction::Retry { delay, wait_for, cleanup } => {
            assert_eq!(delay, 1000);
            assert!(wait_for.is_none());
            assert_eq!(cleanup, Cleanup::ProbeRows);
        }
        other => panic!("unexpected action {:?}", other),
    }
    assert!(matches!(sync.next(CopyEvent::Probed { rows: false }), CopyAction::Copy));
    match sync.next(failed()) {
        CopyAction::Retry { delay, .. } => assert_eq!(delay, 2000),
        other => panic!("unexpected action {:?}", other),
    }
    assert!(matches!(sync.next(CopyEvent::Probed { rows: false }), CopyAction::Copy));
    // That was the third copy.
    assert!(matches!(sync.next(failed()), CopyAction::Fail { probe: true, .. }));
}

/// How often a table is copied where every copy fails with an error that may pass.
fn copies(max_retries: usize) -> usize {
    let mut sync = ParallelSync::new(max_retries, 1000, false, false);
    let mut started = 1;
    loop {
        match sync.next(CopyEvent::Failed(Error::NotConnected)) {
            CopyAction::Retry { .. } => (),
            CopyAction::Fail { error: Error::NotConnected, .. } => return started,
            other => panic!("unexpected action {:?}", other),
        }
        assert!(matches!(sync.next(CopyEvent::Probed { rows: false }), CopyAction::Copy));
        started += 1;
    }
}

#[test]
fn a_table_is_copied_as_often_as_allowed() {
    assert_eq!(copies(1), 1);
    assert_eq!(copies(2), 2);
    assert_eq!(copies(5), 5);
    // The first copy is always made.
    assert_eq!(copies(0), 1);
}

#[test]
fn the_delay_grows_to_a_limit() {
    let mut sync = ParallelSync::new(10, 1000, false, false);
    let mut delays = vec![];
    for _ in 0..8 {
        match sync.next(CopyEvent::Failed(Error::NotConnected)) {
            CopyAction::Retry { delay, .. } => delays.push(delay),
            other => panic!("unexpected action {:?}", other),
        }
        sync.next(CopyEvent::Probed { rows: false });
    }
    assert_eq!(delays, vec![1000, 2000, 4000, 8000, 16000, 32000, 32000, 32000]);
}

#[test]
fn a_key_move_deletes_what_it_copied() {
    let mut sync = ParallelSync::new(2, 1000, false, true);
    match sync.next(CopyEvent::Failed(Error::NotConnected)) {
        CopyAction::Retry { cleanup, .. } => assert_eq!(cleanup, Cleanup::DeleteMovedRows),
        other => panic!("unexpected action {:?}", other),
    }
    assert!(matches!(sync.next(CopyEvent::Deleted), CopyAction::Copy));
    // The last failure is final, and the other rows are none of its business.
    assert!(matches!(
        sync.next(CopyEvent::Failed(Error::NotConnected)),
        CopyAction::Fail { error: Error::NotConnected, probe: false }
    ));

    let mut sync = ParallelSync::new(2, 1000, false, true);
    sync.next(CopyEvent::Failed(Error::NotConnected));
    assert!(matches!(
        sync.next(CopyEvent::DeleteFailed(Error::NoPrimary)),
        CopyAction::Fail { error: Error::NoPrimary, .. }
    ));
}

#[test]
fn an_error_that_stays_is_final() {
    let mut sync = ParallelSync::new(5, 1000, false, false);
    assert!(matches!(
        sync.next(CopyEvent::Failed(Error::MissingData)),
        CopyAction::Fail { error: Error::MissingData, probe: true }
    ));
    let mut sync = ParallelSync::new(5, 1000, false, false);
    assert!(matches!(sync.next(CopyEvent::Copied), CopyAction::Done));
}

#[test]
fn rows_left_behind_end_the_copy() {
    let mut sync = ParallelSync::new(2, 1000, false, false);
    sync.next(CopyEvent::Failed(Error::NotConnected));
    assert!(matches!(
        sync.next(CopyEvent::Probed { rows: true }),
        CopyAction::Fail { error: Error::NotConnected, .. }
    ));
}

#[test]
fn an_open_transaction_is_waited_for() {
    let mut sync = ParallelSync::new(2, 1000, true, false);
    let pending = Error::TwoPcCleanupPending {
        transaction: TwoPcTransaction(9),
        source: Box::new(Error::NotConnected),
    };
    match sync.next(CopyEvent::Failed(pending)) {
        CopyAction::Retry { wait_for, .. } => assert_eq!(wait_for.map(|t| t.0), Some(9)),
        other => panic!("unexpected action {:?}", other),
    }
}

#[test]
fn tables_are_copied_by_every_replica_in_turn() {
    let tables: Vec<Table> = ["a", "b", "c"]
        .iter()
        .map(|name| make_table("public", name, 0))
        .collect();
    let manager = ParallelSyncManager::new(tables, 2, 4, None).unwrap();
    assert_eq!(manager.permits(), 8);
    let plan: Vec<(String, usize)> = manager
        .run()
        .into_iter()
        .map(|(table, replica)| (table.table.name, replica))
        .collect();
    assert_eq!(
        plan,
        vec![("a".to_string(), 0), ("b".to_string(), 1), ("c".to_string(), 0)]
    );
    assert!(matches!(
        ParallelSyncManager::new(vec![], 0, 4, None),
        Err(Error::NoReplicas)
    ));
}

#[test]
fn leftovers_are_named() {
    let table = make_table("public", "users", 0).table;
    assert_eq!(probe_query(&table), "SELECT 1 FROM \"public\".\"users\" LIMIT 1");
    let answers = vec![Ok(vec!['D', 'C', 'Z']), Ok(vec!['C', 'Z']), Ok(vec!['D'])];
    assert_eq!(destination_has_rows(&answers), vec![0, 2]);
    assert!(leftover_warning(&table, &vec![0, 2]).contains("users"));
    may_start(true, false).unwrap();
    assert!(may_start(false, false).is_err());
    assert!(may_start(true, true).is_err());
}

#[test]
fn the_first_error_counts() {
    first_error(vec![Ok(()), Ok(())]).unwrap();
    assert!(matches!(
        first_error(vec![Ok(()), Err(Error::NoPrimary), Err(Error::NoTables)]),
        Err(Error::NoPrimary)
    ));
}

// ── Publications ────────────────────────────────────────────────────

fn rejected(code: &str, message: &str) -> Result<(), BackendError> {
    Err(BackendError::ExecutionError(ErrorResponse {
        code: code.into(),
        message: message.into(),
    }))
}

#[test]
fn test_create_verify_drop_publication() {
    let name = "__pgdog_test_add_shard_pub";
    let tables = vec!["pub_omni_a".to_string(), "pub_omni_b".to_string()];

    assert_eq!(
        create_publication(name, &tables).unwrap(),
        "CREATE PUBLICATION \"__pgdog_test_add_shard_pub\" FOR TABLE \"pub_omni_a\", \"pub_omni_b\""
    );

    // Fresh create.
    assert_eq!(publication_created(Ok(())).unwrap(), Created::New);

    // Identical table set: reused, not an error.
    assert_eq!(
        publication_created(rejected("42710", "already exists")).unwrap(),
        Created::Exists
    );
    validate_tables(name, &tables, &tables).unwrap();

    // Different table set: refused.
    let mismatched = vec!["pub_omni_a".to_string()];
    let err = validate_tables(name, &tables, &mismatched).unwrap_err();
    assert!(matches!(err, Error::PublicationMismatch(_)));

    // Empty table list: refused.
    let err = create_publication("__pgdog_test_empty", &vec![]).unwrap_err();
    assert!(matches!(err, Error::NoTables));

    assert_eq!(
        drop_publication(name),
        "DROP PUBLICATION IF EXISTS \"__pgdog_test_add_shard_pub\""
    );
    assert!(publication_created(rejected("42501", "denied")).is_err());
}

#[test]
fn test_validate_refuses_row_filtered_publication() {
    let name = "__pgdog_test_row_filter_pub";
    let tables = vec!["pub_filtered".to_string()];

    // The table set matches, but the row filter would silently
    // drop rows the copy and stream expect.
    validate_tables(name, &tables, &tables).unwrap();
    assert!(row_filters_query(name).contains("'__pgdog_test_row_filter_pub'"));
    let err = validate_row_filters(name, &vec![1]).unwrap_err();
    assert!(matches!(err, Error::PublicationHasRowFilter(_)));

    // Same publication without the filter validates.
    validate_row_filters(name, &vec![0]).unwrap();
}

// ── Schema ──────────────────────────────────────────────────────────

fn create() -> Statement {
    Statement::new("CREATE TABLE _sync_table (id BIGINT)".to_string())
}

#[test]
fn one_replay_under_every_option() {
    for code in ["42P07", "42710", "42P16", "42809"] {
        let failed = || rejected(code, "already exists");
        assert!(matches!(execute(Ok(()), &create(), false), Ok(StatementOutcome::Applied)));
        assert!(
            matches!(
                execute(failed(), &create().set_skip_if_exists(), false),
                Ok(StatementOutcome::Skipped)
            ),
            "{code}"
        );
        assert!(execute(failed(), &create(), false).is_err(), "{code}");
        assert!(
            matches!(execute(failed(), &create(), true), Ok(StatementOutcome::Failed(_))),
            "{code}"
        );
    }
}

#[test]
fn an_unrelated_error_is_not_skipped() {
    let failed = || rejected("42704", "type \"_sync_no_such_type\" does not exist");

    assert!(execute(failed(), &create().set_skip_if_exists(), false).is_err());

    match execute(failed(), &create(), true) {
        Ok(StatementOutcome::Failed(message)) => {
            assert!(message.contains("_sync_no_such_type"), "got {message:?}")
        }
        other => panic!("expected a recorded failure: {:?}", other),
    }
}

#[test]
fn each_command_has_its_phase() {
    assert_eq!(phase(false, false), SchemaSyncPhase::Pre);
    assert_eq!(phase(true, false), SchemaSyncPhase::Post);
    assert_eq!(phase(false, true), SchemaSyncPhase::Cutover);
    assert_eq!(SchemaSyncPhase::Post.sync_state(), SyncState::PostData);
    let sync = SchemaSync::new(
        &databases(),
        &"source".to_string(),
        &"destination".to_string(),
        "test_pub",
    )
    .unwrap();
    assert_eq!(sync.shards(), 2);
    assert!(sync.dump().loads_tables());
}

#[test]
fn a_stream_takes_its_slot_over() {
    let dest = cluster("destination");
    let mut publisher = Publisher::new("test", "slot".into());
    assert!(matches!(
        publisher.open_stream(0, 1, &dest),
        Err(Error::NoReplicationTables(0))
    ));
    publisher.set_tables(0, vec![make_table("public", "sharded", 0)]);
    assert!(matches!(
        publisher.open_stream(0, 1, &dest),
        Err(Error::NoReplicationSlot(0))
    ));
    publisher.slot_created(0, 77);
    let stream = publisher.open_stream(0, 1, &dest).unwrap();
    assert_eq!(stream.lsn(), 77);
    assert_eq!(stream.status_update(0).last_flushed, 77);
    assert!(publisher.cleanup().is_empty());
}

#[test]
fn a_provisioning_sync_keeps_its_destination() {
    let databases = databases();
    let mut sync = SchemaSync::for_provisioning(
        &databases,
        &"source".to_string(),
        cluster("new_shard"),
        "",
        true,
    )
    .unwrap();
    assert!(!sync.dump().loads_tables());
    sync.refresh(&databases).unwrap();
    assert_eq!(sync.shards(), 2);
    assert!(SchemaSync::new(
        &databases,
        &"source".to_string(),
        &"new_shard".to_string(),
        "test_pub"
    )
    .is_err());
}
