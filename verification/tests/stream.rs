use std::collections::HashMap;
use std::sync::Arc;

use pgdog::cluster::{Cluster, Shard as ClusterShard};
use pgdog::replication::codec::{CopyData, XLogData};
use pgdog::replication::error::{Error, ErrorResponse, Op, TableValidationErrors};
use pgdog::replication::messages::{
    Begin, Commit, Relation, RelationColumn, StatusUpdate, XLogPayload,
};
use pgdog::replication::missed_rows::MissedRows;
use pgdog::replication::routing::{OmniOwnership, Shard};
use pgdog::replication::stream::{
    check_reply, transaction_statements, validate_full_identity_omni_has_unique_index, Action,
    Event, Reply, StreamSubscriber, TRANSACTION_REPLIES,
};
use pgdog::replication::stream_loop::{keepalive, LoopAction, LoopEvent, ReplicationLoop};
use pgdog::replication::table::{
    Lsn, PublicationTable, PublicationTableColumn, ReplicaIdentity, Table,
};
use pgdog::replication::tuple::{
    Column, Delete, Format, Identifier, Insert, Oid, TupleData, Update, UpdateIdentity,
};
use pgdog::sharded_tables::{LookupStore, ShardedTable, ShardedTables, SystemCatalogsBehavior};

// ── Fixtures ────────────────────────────────────────────────────────

fn cluster(shards: usize) -> Arc<Cluster> {
    let sharded = |name: &str| ShardedTable {
        database: "pgdog".into(),
        name: Some(name.into()),
        column: "id".into(),
        ..Default::default()
    };
    Arc::new(Cluster {
        name: "pgdog".into(),
        database: "pgdog".into(),
        shards: (0..shards).map(|_| Arc::new(ClusterShard { pools: vec![] })).collect(),
        sharded_tables: ShardedTables::new(
            vec![sharded("sharded"), sharded("posts"), sharded("sharded_test_b")],
            vec![],
            false,
            SystemCatalogsBehavior::default(),
            &mut LookupStore::new(),
        ),
        two_pc_enabled: false,
    })
}

fn make_table(name: &str, identity: &str, columns: &[(&str, u32, bool)]) -> Table {
    Table {
        publication: "test".into(),
        table: PublicationTable {
            schema: "public".into(),
            name: name.into(),
            ..Default::default()
        },
        identity: ReplicaIdentity {
            oid: Oid(1),
            identity: identity.into(),
            kind: "".into(),
        },
        columns: columns
            .iter()
            .map(|(name, type_oid, identity)| PublicationTableColumn {
                oid: 1,
                name: name.to_string(),
                type_oid: Oid(*type_oid),
                identity: *identity,
            })
            .collect(),
        lsn: Lsn::default(),
        null_filter_column: None,
    }
}

fn make_sharded_table() -> Table {
    make_table("sharded", "", &[("id", 20, true), ("value", 25, false)])
}

fn make_sharded_test_b_table() -> Table {
    make_table("sharded_test_b", "", &[("id", 20, true), ("value", 25, false)])
}

fn make_posts_table() -> Table {
    make_table("posts", "", &[("id", 20, true), ("title", 25, false), ("body", 25, false)])
}

fn make_full_identity_sharded_table() -> Table {
    make_table("sharded", "f", &[("id", 20, false), ("value", 25, false)])
}

fn make_full_identity_omni_table() -> Table {
    make_table("full_events_omni", "f", &[("a", 25, false), ("b", 25, false)])
}

fn make_hybrid_table() -> Table {
    let mut table = make_table(
        "hybrid_null",
        "",
        &[("id", 20, true), ("org_id", 25, false), ("value", 25, false)],
    );
    table.null_filter_column = Some("org_id".into());
    table
}

/// How the source announces a table.
fn relation(oid: Oid, table: &Table) -> Relation {
    Relation {
        oid,
        namespace: "public".into(),
        name: table.table.name.clone(),
        replica_identity: 100,
        columns: table
            .columns
            .iter()
            .map(|c| RelationColumn {
                flag: c.identity as u8,
                name: c.name.clone(),
                oid: c.type_oid,
                type_modifier: -1,
            })
            .collect(),
    }
}

fn xlog_copy_data(bytes: Vec<u8>) -> CopyData {
    let xlog = XLogData {
        starting_point: 0,
        current_end: 0,
        system_clock: 0,
        bytes,
    };
    CopyData::new(&xlog.to_bytes())
}

fn begin_copy_data(lsn: i64) -> CopyData {
    xlog_copy_data(
        Begin {
            final_transaction_lsn: lsn,
            commit_timestamp: 0,
            xid: 1,
        }
        .to_bytes(),
    )
}

fn commit_copy_data(end_lsn: i64) -> CopyData {
    xlog_copy_data(
        Commit {
            flags: 0,
            commit_lsn: 0,
            end_lsn,
            commit_timestamp: 0,
        }
        .to_bytes(),
    )
}

fn relation_copy_data(oid: Oid, table: &Table) -> CopyData {
    xlog_copy_data(relation(oid, table).to_bytes())
}

fn text_column(data: &str) -> Column {
    Column {
        identifier: Identifier::Format(Format::Text),
        len: data.len() as i32,
        data: data.as_bytes().to_vec(),
    }
}

fn toasted_column() -> Column {
    Column {
        identifier: Identifier::Toasted,
        len: 0,
        data: vec![],
    }
}

fn null_column() -> Column {
    Column {
        identifier: Identifier::Null,
        len: 0,
        data: vec![],
    }
}

fn row(columns: Vec<Column>) -> TupleData {
    TupleData { columns }
}

fn insert_copy_data(oid: Oid, columns: Vec<Column>) -> CopyData {
    xlog_copy_data(
        Insert {
            oid,
            tuple_data: row(columns),
        }
        .to_bytes(),
    )
}

fn update_copy_data(oid: Oid, identity: UpdateIdentity, columns: Vec<Column>) -> CopyData {
    xlog_copy_data(
        Update {
            oid,
            identity,
            new: row(columns),
        }
        .to_bytes(),
    )
}

fn delete_copy_data(oid: Oid, key: Option<TupleData>, old: Option<TupleData>) -> CopyData {
    xlog_copy_data(Delete { oid, key, old }.to_bytes())
}

/// One statement as a destination gets it.
#[derive(Debug, PartialEq)]
struct Sent {
    targets: Vec<usize>,
    sql: String,
    parameters: Vec<Option<String>>,
}

/// A subscriber whose destinations do everything they are asked to.
struct Destination {
    sub: StreamSubscriber,
    counter: usize,
    shards: usize,
    route: Option<usize>,
    queries: HashMap<String, String>,
    prepared: usize,
    sent: Vec<Sent>,
}

impl Destination {
    fn new(shards: usize, tables: Vec<Table>) -> Self {
        Self {
            sub: StreamSubscriber::new(&cluster(shards), &tables, OmniOwnership::test()),
            counter: 1,
            shards,
            route: Some(0),
            queries: HashMap::new(),
            prepared: 0,
            sent: vec![],
        }
    }

    fn handle(&mut self, data: CopyData) -> Result<Option<StatusUpdate>, Error> {
        let mut action = self.sub.handle(&data, &mut self.counter);
        loop {
            let event = match action {
                Action::Connect => Event::Connected(self.shards),
                Action::Prepare(statements) => {
                    for parse in statements {
                        self.prepared += 1;
                        self.queries.insert(parse.name, parse.query);
                    }
                    Event::Prepared
                }
                Action::Route { binds, .. } => Event::Routed(
                    binds
                        .iter()
                        .map(|_| match self.route {
                            Some(shard) => Shard::Direct(shard),
                            None => Shard::All,
                        })
                        .collect(),
                ),
                Action::Send(writes) => {
                    for write in writes {
                        self.sent.push(Sent {
                            targets: write.targets,
                            sql: self.queries[&write.bind.statement].clone(),
                            parameters: write
                                .bind
                                .parameters
                                .iter()
                                .map(|p| p.as_ref().map(|p| p.text().unwrap().to_string()))
                                .collect(),
                        });
                    }
                    Event::Sent
                }
                Action::Drain => Event::Drained,
                Action::Sync => Event::Synced { now: 7 },
                Action::Done(status) => return Ok(status),
                Action::Failed(error) => return Err(error),
            };
            action = self.sub.resume(event, &mut self.counter);
        }
    }

    fn transaction(&mut self, lsn: i64, end_lsn: i64, changes: Vec<CopyData>) {
        self.handle(begin_copy_data(lsn)).unwrap();
        for change in changes {
            self.handle(change).unwrap();
        }
        self.handle(commit_copy_data(end_lsn)).unwrap();
    }
}

fn make_subscriber() -> Destination {
    Destination::new(2, vec![make_sharded_table(), make_sharded_test_b_table()])
}

fn sent(targets: Vec<usize>, sql: String, parameters: &[&str]) -> Sent {
    Sent {
        targets,
        sql,
        parameters: parameters.iter().map(|p| Some(p.to_string())).collect(),
    }
}

// ── State machine ───────────────────────────────────────────────────

#[test]
fn commit_returns_status_and_clears_transaction() {
    let mut dest = make_subscriber();

    dest.handle(begin_copy_data(100)).unwrap();
    assert!(dest.sub.in_transaction());

    let result = dest.handle(commit_copy_data(200)).unwrap();
    assert!(!dest.sub.in_transaction());
    assert_eq!(dest.sub.lsn(), 200);

    let status = result.expect("commit should return a StatusUpdate");
    assert_eq!(status.last_applied, 200);
    assert_eq!(status.last_flushed, 200);
    assert_eq!(status.last_written, 200);
}

#[test]
fn begin_returns_no_status_update() {
    let mut dest = make_subscriber();

    let result = dest.handle(begin_copy_data(100)).unwrap();
    assert!(result.is_none());
}

#[test]
fn apply_begin_no_status_update() {
    let mut dest = Destination::new(2, vec![]);

    let result = dest.handle(begin_copy_data(1));

    assert!(
        result.unwrap().is_none(),
        "Begin event must not emit a status update"
    );
}

#[test]
fn apply_commit_emits_status_update() {
    let mut dest = Destination::new(2, vec![]);

    let result = dest.handle(commit_copy_data(1));

    assert!(result.is_ok());
    assert!(
        result.unwrap().is_some(),
        "commit should produce a status update"
    );
}

#[test]
fn bytes_sharded_accumulates() {
    let mut dest = make_subscriber();

    assert_eq!(dest.sub.bytes_sharded(), 0);

    dest.handle(begin_copy_data(100)).unwrap();
    assert!(dest.sub.bytes_sharded() > 0);

    let after_begin = dest.sub.bytes_sharded();
    dest.handle(commit_copy_data(200)).unwrap();
    assert!(dest.sub.bytes_sharded() > after_begin);
}

#[test]
fn status_update_stays_at_committed_lsn_during_transaction() {
    let mut dest = make_subscriber();

    // Nothing committed yet: ack pointer is at 0.
    assert_eq!(dest.sub.status_update(0).last_flushed, 0);

    // Commit a first transaction (begin LSN 50, end LSN 100).
    dest.handle(begin_copy_data(50)).unwrap();
    dest.handle(commit_copy_data(100)).unwrap();
    assert_eq!(dest.sub.status_update(0).last_flushed, 100);

    // Open a second transaction: Begin advances lsn to 200 (future commit LSN).
    dest.handle(begin_copy_data(200)).unwrap();
    assert_eq!(dest.sub.lsn(), 200, "working lsn follows Begin");
    // KeepAlive mid-transaction must still report 100, not 200.
    assert_eq!(
        dest.sub.status_update(0).last_flushed,
        100,
        "committed_lsn must not advance before commit"
    );
}

#[test]
fn relation_inside_transaction() {
    let mut dest = make_subscriber();

    dest.handle(begin_copy_data(100)).unwrap();
    assert!(dest.sub.in_transaction());

    dest.handle(relation_copy_data(Oid(16384), &make_sharded_table())).unwrap();
    assert!(dest.sub.in_transaction());
}

#[test]
fn relation_outside_transaction() {
    let mut dest = make_subscriber();

    assert!(!dest.sub.in_transaction());
    dest.handle(relation_copy_data(Oid(16384), &make_sharded_table())).unwrap();
    assert!(!dest.sub.in_transaction());
}

// ── Positions ───────────────────────────────────────────────────────

#[test]
fn lsn_gating_is_inclusive_at_copy_boundary() {
    let oid = Oid(42);
    let mut table = make_sharded_table();
    table.lsn = Lsn::from_i64(100);
    let mut dest = Destination::new(2, vec![table]);
    dest.handle(relation_copy_data(oid, &make_sharded_table())).unwrap();
    assert_eq!(dest.sub.table_lsn(&oid), Some(100));

    dest.sub.set_current_lsn(100);

    assert!(dest.sub.lsn_applied(&oid));
}

#[test]
fn table_watermarks_advance_on_commit() {
    let oid = Oid(42);
    let mut table = make_sharded_table();
    table.lsn = Lsn::from_i64(50);
    let mut dest = Destination::new(2, vec![table]);
    dest.handle(relation_copy_data(oid, &make_sharded_table())).unwrap();

    dest.handle(begin_copy_data(100)).unwrap();
    dest.handle(insert_copy_data(oid, vec![text_column("1"), text_column("a")])).unwrap();

    // Rows from the current transaction must remain eligible until commit.
    assert!(!dest.sub.lsn_applied(&oid));

    dest.handle(commit_copy_data(200)).unwrap();

    assert_eq!(dest.sub.table_lsn(&oid), Some(100));
    assert_eq!(dest.sub.lsn(), 200);

    // Nothing is left to advance with the next transaction.
    dest.handle(begin_copy_data(300)).unwrap();
    dest.handle(commit_copy_data(400)).unwrap();
    assert_eq!(dest.sub.table_lsn(&oid), Some(100));
}

#[test]
fn old_changes_are_not_written() {
    let oid = Oid(16384);
    let mut dest = make_subscriber();
    dest.transaction(
        100,
        200,
        vec![
            relation_copy_data(oid, &make_sharded_table()),
            insert_copy_data(oid, vec![text_column("1"), text_column("first")]),
        ],
    );
    assert_eq!(dest.sent.len(), 1);

    // A transaction at 50, behind the table's 100.
    dest.handle(begin_copy_data(50)).unwrap();
    assert!(dest.sub.lsn_applied(&oid));
    dest.handle(insert_copy_data(oid, vec![text_column("2"), text_column("replayed")])).unwrap();
    dest.handle(commit_copy_data(60)).unwrap();
    assert_eq!(dest.sent.len(), 1);
}

#[test]
fn copied_rows_are_not_written_again() {
    let oid = Oid(16384);
    let mut table = make_sharded_table();
    table.lsn = Lsn::from_i64(100);
    let mut dest = Destination::new(2, vec![table, make_sharded_test_b_table()]);
    dest.transaction(
        100,
        200,
        vec![
            relation_copy_data(oid, &make_sharded_table()),
            insert_copy_data(oid, vec![text_column("1"), text_column("copied_already")]),
        ],
    );
    assert!(dest.sent.is_empty());
}

#[test]
fn rows_of_one_transaction_are_all_written() {
    let oid = Oid(16384);
    let mut dest = make_subscriber();
    dest.transaction(
        100,
        200,
        vec![
            relation_copy_data(oid, &make_sharded_table()),
            insert_copy_data(oid, vec![text_column("1"), text_column("first")]),
            insert_copy_data(oid, vec![text_column("2"), text_column("second")]),
        ],
    );
    let sql = make_sharded_table().insert();
    assert_eq!(
        dest.sent,
        vec![
            sent(vec![0], sql.clone(), &["1", "first"]),
            sent(vec![0], sql, &["2", "second"]),
        ]
    );
}

// ── Round trips ─────────────────────────────────────────────────────

#[test]
fn copy_data_round_trip_begin() {
    let cd = begin_copy_data(42);
    let xlog = cd.xlog_data().expect("should parse as XLogData");
    let payload = xlog.payload().expect("should have payload");
    assert!(matches!(payload, XLogPayload::Begin(_)));
}

#[test]
fn copy_data_round_trip_commit() {
    let cd = commit_copy_data(99);
    let xlog = cd.xlog_data().unwrap();
    let payload = xlog.payload().unwrap();
    assert!(matches!(payload, XLogPayload::Commit(_)));
}

#[test]
fn copy_data_round_trip_relation() {
    let cd = relation_copy_data(Oid(16384), &make_sharded_table());
    let xlog = cd.xlog_data().unwrap();
    let payload = xlog.payload().unwrap();
    assert!(matches!(payload, XLogPayload::Relation(_)));
}

#[test]
fn copy_data_round_trip_insert() {
    let cd = insert_copy_data(Oid(16384), vec![text_column("1"), text_column("hello")]);
    let xlog = cd.xlog_data().unwrap();
    let payload = xlog.payload().unwrap();
    assert!(matches!(payload, XLogPayload::Insert(_)));
}

#[test]
fn copy_data_round_trip_delete() {
    let cd = delete_copy_data(Oid(16384), Some(row(vec![text_column("1")])), None);
    let xlog = cd.xlog_data().unwrap();
    let payload = xlog.payload().unwrap();
    assert!(matches!(payload, XLogPayload::Delete(_)));
}

#[test]
fn an_update_is_read_back() {
    let cd = update_copy_data(
        Oid(9),
        UpdateIdentity::Old(row(vec![text_column("1"), null_column()])),
        vec![text_column("2"), toasted_column()],
    );
    match cd.xlog_data().unwrap().payload().unwrap() {
        XLogPayload::Update(update) => {
            assert_eq!(update.oid, Oid(9));
            match update.identity {
                UpdateIdentity::Old(old) => {
                    assert_eq!(old.columns[0].data, b"1".to_vec());
                    assert_eq!(old.columns[1].identifier, Identifier::Null);
                }
                other => panic!("unexpected identity {:?}", other),
            }
            assert_eq!(update.new.columns[0].data, b"2".to_vec());
            assert_eq!(update.new.columns[1].identifier, Identifier::Toasted);
        }
        other => panic!("unexpected payload {:?}", other),
    }
}

#[test]
fn a_relation_is_read_back() {
    let cd = relation_copy_data(Oid(16384), &make_posts_table());
    match cd.xlog_data().unwrap().payload().unwrap() {
        XLogPayload::Relation(relation) => {
            assert_eq!(relation.oid, Oid(16384));
            assert_eq!(relation.namespace, "public");
            assert_eq!(relation.name, "posts");
            assert_eq!(relation.columns.len(), 3);
            assert_eq!(relation.columns[0].flag, 1);
            assert_eq!(relation.columns[2].name, "body");
            assert_eq!(relation.columns[2].type_modifier, -1);
        }
        other => panic!("unexpected payload {:?}", other),
    }
}

#[test]
fn bytes_that_hold_no_message_have_no_payload() {
    assert!(CopyData::new(&vec![]).xlog_data().is_none());
    assert!(CopyData::new(&vec![0x77, 1, 2]).xlog_data().is_none());
    let truncated = Begin {
        final_transaction_lsn: 1,
        commit_timestamp: 0,
        xid: 1,
    }
    .to_bytes();
    let cd = xlog_copy_data(truncated[..5].to_vec());
    assert!(cd.xlog_data().unwrap().payload().is_none());
}

// ── Rows ────────────────────────────────────────────────────────────

#[test]
fn a_delete_is_written_by_key() {
    let oid = Oid(16384);
    let mut dest = make_subscriber();
    dest.transaction(
        100,
        200,
        vec![
            relation_copy_data(oid, &make_sharded_table()),
            insert_copy_data(oid, vec![text_column("5"), text_column("to_delete")]),
        ],
    );
    dest.transaction(
        300,
        400,
        vec![delete_copy_data(oid, Some(row(vec![text_column("5")])), None)],
    );
    assert_eq!(dest.sent[1], sent(vec![0], make_sharded_table().delete(), &["5"]));
}

#[test]
fn partitions_share_their_destination() {
    let leaf = |name: &str| {
        let mut table = make_sharded_table();
        table.table.name = name.into();
        table.table.parent_schema = "public".into();
        table.table.parent_name = "sharded".into();
        table
    };
    let (a, b) = (leaf("sharded_p1"), leaf("sharded_p2"));
    let mut dest = Destination::new(1, vec![a.clone(), b.clone()]);
    dest.transaction(
        100,
        200,
        vec![
            relation_copy_data(Oid(16384), &a),
            relation_copy_data(Oid(16385), &b),
            insert_copy_data(Oid(16384), vec![text_column("1"), text_column("leaf_a")]),
            insert_copy_data(Oid(16385), vec![text_column("2"), text_column("leaf_b")]),
        ],
    );
    // The second one prepared nothing, and both rows go to the shared table.
    assert_eq!(dest.prepared, 4);
    let sql = a.insert();
    assert!(sql.contains(r#""public"."sharded" "#), "{}", sql);
    assert_eq!(
        dest.sent,
        vec![
            sent(vec![0], sql.clone(), &["1", "leaf_a"]),
            sent(vec![0], sql, &["2", "leaf_b"]),
        ]
    );
}

#[test]
fn an_update_leaves_toasted_columns_alone() {
    let oid = Oid(16384);
    let mut dest = Destination::new(2, vec![make_posts_table()]);
    dest.transaction(
        100,
        200,
        vec![relation_copy_data(oid, &make_posts_table())],
    );
    let before = dest.prepared;
    let update = |title: &str| {
        update_copy_data(
            oid,
            UpdateIdentity::Nothing,
            vec![text_column("1"), text_column(title), toasted_column()],
        )
    };
    dest.transaction(300, 400, vec![update("first-update"), update("second-update")]);

    let sql = r#"UPDATE "public"."posts" SET "title" = $2 WHERE "id" = $1"#.to_string();
    assert_eq!(
        dest.sent,
        vec![
            sent(vec![0], sql.clone(), &["1", "first-update"]),
            sent(vec![0], sql, &["1", "second-update"]),
        ]
    );
    // The second one uses the statement of the first.
    assert_eq!(dest.prepared, before + 1);
}

#[test]
fn an_update_of_nothing_writes_nothing() {
    let oid = Oid(16384);
    let mut dest = Destination::new(2, vec![make_posts_table()]);
    dest.transaction(
        300,
        400,
        vec![
            relation_copy_data(oid, &make_posts_table()),
            update_copy_data(
                oid,
                UpdateIdentity::Nothing,
                vec![text_column("1"), toasted_column(), toasted_column()],
            ),
        ],
    );
    assert!(dest.sent.is_empty());
    assert_eq!(dest.sub.lsn(), 400);
}

#[test]
fn toast_pk_change_with_u_rejects() {
    let oid = Oid(16384);
    let mut dest = make_subscriber();
    dest.handle(begin_copy_data(100)).unwrap();
    dest.handle(relation_copy_data(oid, &make_sharded_table())).unwrap();
    let err = dest
        .handle(update_copy_data(
            oid,
            UpdateIdentity::Key(row(vec![text_column("old")])),
            vec![text_column("new"), toasted_column()],
        ))
        .expect_err("expected ToastedRowMigration");
    assert!(
        matches!(err, Error::ToastedRowMigration { .. }),
        "got: {:?}",
        err
    );
}

#[test]
fn update_rejects_toasted_identity_no_key() {
    let oid = Oid(16384);
    let mut dest = Destination::new(2, vec![make_posts_table()]);
    dest.handle(begin_copy_data(100)).unwrap();
    dest.handle(relation_copy_data(oid, &make_posts_table())).unwrap();
    let err = dest
        .handle(update_copy_data(
            oid,
            UpdateIdentity::Nothing,
            vec![toasted_column(), text_column("new-title"), text_column("new-body")],
        ))
        .expect_err("toasted identity must be rejected");
    assert!(matches!(err, Error::ToastedIdentityColumn { .. }), "got: {err:?}");
}

#[test]
fn update_rejects_toasted_identity_with_key() {
    let oid = Oid(16384);
    let mut dest = Destination::new(2, vec![make_posts_table()]);
    dest.handle(begin_copy_data(100)).unwrap();
    dest.handle(relation_copy_data(oid, &make_posts_table())).unwrap();
    let err = dest
        .handle(update_copy_data(
            oid,
            UpdateIdentity::Key(row(vec![text_column("42")])),
            vec![toasted_column(), text_column("new-title"), text_column("new-body")],
        ))
        .expect_err("toasted identity with key must be rejected");
    assert!(matches!(err, Error::ToastedIdentityColumn { .. }), "got: {err:?}");
}

#[test]
fn a_changed_key_moves_the_row() {
    let oid = Oid(16384);
    let mut dest = make_subscriber();
    dest.transaction(
        100,
        200,
        vec![
            relation_copy_data(oid, &make_sharded_table()),
            update_copy_data(
                oid,
                UpdateIdentity::Key(row(vec![text_column("1")])),
                vec![text_column("2"), text_column("moved")],
            ),
        ],
    );
    assert_eq!(
        dest.sent,
        vec![
            sent(vec![0], make_sharded_table().delete(), &["1"]),
            sent(vec![0], make_sharded_table().insert(), &["2", "moved"]),
        ]
    );
}

// ── REPLICA IDENTITY FULL ───────────────────────────────────────────

#[test]
fn full_identity_nothing_rejected() {
    let mut nothing = make_full_identity_sharded_table();
    nothing.identity.identity = "n".into();
    let mut dest = Destination::new(1, vec![nothing.clone()]);

    let err = dest
        .handle(relation_copy_data(Oid(16390), &nothing))
        .expect_err("REPLICA IDENTITY NOTHING must be rejected");
    assert!(
        matches!(err, Error::TableValidation(_)),
        "expected TableValidation error, got: {err:?}"
    );
    assert_eq!(
        err.to_text(),
        "Table validation failed:\n\ttable \"public\".\"sharded\": REPLICA IDENTITY NOTHING, UPDATE/DELETE carry no row identity and cannot be replicated; set it to DEFAULT, INDEX, or FULL",
    );
}

#[test]
fn full_identity_omni_no_unique_index_rejected() {
    let dest = Destination::new(1, vec![make_full_identity_omni_table()]);
    let tables = dest.sub.omni_full_tables();
    assert_eq!(tables.len(), 1);
    assert_eq!(tables[0].name, "full_events_omni");

    // The one destination has no unique index on it.
    let missing = vec![vec![tables[0].destination()]];
    let err = validate_full_identity_omni_has_unique_index(&missing)
        .expect_err("omni FULL table without unique index must be rejected at connect time");
    assert!(
        matches!(err, Error::TableValidation(_)),
        "expected TableValidation error, got: {err:?}"
    );
    assert!(
        err.to_text().contains("REPLICA IDENTITY FULL"),
        "error message must mention FULL identity, got: {err:?}"
    );
    validate_full_identity_omni_has_unique_index(&vec![vec![], vec![]]).unwrap();
}

#[test]
fn a_table_is_reported_once_for_all_shards() {
    let missing = vec![
        vec!["b".to_string(), "a".to_string()],
        vec!["a".to_string()],
    ];
    match validate_full_identity_omni_has_unique_index(&missing) {
        Err(Error::TableValidation(TableValidationErrors(list))) => {
            let names: Vec<&str> = list.iter().map(|e| e.table_name.as_str()).collect();
            assert_eq!(names, vec!["a", "b"]);
        }
        other => panic!("unexpected result {:?}", other),
    }
}

#[test]
fn a_full_identity_update_finds_the_old_row() {
    let oid = Oid(16384);
    let table = make_full_identity_sharded_table();
    let mut dest = Destination::new(1, vec![table.clone()]);
    dest.transaction(
        100,
        200,
        vec![
            relation_copy_data(oid, &table),
            update_copy_data(
                oid,
                UpdateIdentity::Old(row(vec![text_column("1"), text_column("before")])),
                vec![text_column("2"), text_column("after")],
            ),
        ],
    );
    assert_eq!(
        dest.sent,
        vec![sent(vec![0], table.update_full_identity(), &["1", "before", "2", "after"])]
    );
}

#[test]
fn a_full_identity_update_sets_what_changed() {
    let oid = Oid(16384);
    let table = make_full_identity_sharded_table();
    let mut dest = Destination::new(1, vec![table.clone()]);
    dest.transaction(
        100,
        200,
        vec![
            relation_copy_data(oid, &table),
            update_copy_data(
                oid,
                UpdateIdentity::Old(row(vec![text_column("1"), text_column("initial")])),
                vec![text_column("2"), toasted_column()],
            ),
        ],
    );
    assert_eq!(
        dest.sent,
        vec![sent(
            vec![0],
            r#"UPDATE "public"."sharded" SET "id" = $3 WHERE ctid = (SELECT ctid FROM "public"."sharded" WHERE "id" IS NOT DISTINCT FROM $1 AND "value" IS NOT DISTINCT FROM $2 LIMIT 1)"#.to_string(),
            &["1", "initial", "2"],
        )]
    );
}

#[test]
fn a_full_identity_update_of_nothing_writes_nothing() {
    let oid = Oid(16384);
    let table = make_full_identity_sharded_table();
    let mut dest = Destination::new(1, vec![table.clone()]);
    dest.transaction(
        100,
        200,
        vec![
            relation_copy_data(oid, &table),
            update_copy_data(
                oid,
                UpdateIdentity::Old(row(vec![toasted_column(), toasted_column()])),
                vec![toasted_column(), toasted_column()],
            ),
        ],
    );
    assert!(dest.sent.is_empty());
}

#[test]
fn a_full_identity_delete_needs_the_old_row() {
    let oid = Oid(16384);
    let table = make_full_identity_sharded_table();
    let mut dest = Destination::new(1, vec![table.clone()]);
    dest.handle(begin_copy_data(100)).unwrap();
    dest.handle(relation_copy_data(oid, &table)).unwrap();
    assert!(matches!(
        dest.handle(delete_copy_data(oid, Some(row(vec![text_column("1")])), None)),
        Err(Error::FullIdentityMissingOld { op: Op::Delete, .. })
    ));
}

#[test]
fn a_full_identity_delete_finds_the_old_row() {
    let oid = Oid(16384);
    let table = make_full_identity_sharded_table();
    let mut dest = Destination::new(1, vec![table.clone()]);
    dest.transaction(
        100,
        200,
        vec![
            relation_copy_data(oid, &table),
            delete_copy_data(oid, None, Some(row(vec![text_column("1"), null_column()]))),
        ],
    );
    assert_eq!(
        dest.sent,
        vec![Sent {
            targets: vec![0],
            sql: table.delete_full_identity(),
            parameters: vec![Some("1".into()), None],
        }]
    );
}

#[test]
fn rows_of_every_shard_are_written_once_each() {
    let oid = Oid(16400);
    let table = make_full_identity_omni_table();
    let mut dest = Destination::new(2, vec![table.clone()]);
    dest.route = None;
    dest.transaction(
        100,
        200,
        vec![
            relation_copy_data(oid, &table),
            insert_copy_data(oid, vec![text_column("hello"), text_column("world")]),
        ],
    );
    assert_eq!(
        dest.sent,
        vec![sent(vec![0, 1], table.upsert_full_identity(), &["hello", "world"])]
    );
}

// ── Tables whose rows without a key go everywhere ───────────────────

fn hybrid_row(id: &str, org_id: Option<&str>, value: &str) -> Vec<Column> {
    vec![
        text_column(id),
        org_id.map(text_column).unwrap_or_else(null_column),
        text_column(value),
    ]
}

#[test]
fn keyed_rows_are_not_inserted() {
    let oid = Oid(16390);
    let table = make_hybrid_table();
    let mut dest = Destination::new(1, vec![table.clone()]);
    dest.route = None;
    dest.transaction(
        100,
        200,
        vec![
            relation_copy_data(oid, &table),
            insert_copy_data(oid, hybrid_row("1", None, "global")),
            insert_copy_data(oid, hybrid_row("2", Some("org_a"), "tenant")),
        ],
    );
    assert_eq!(dest.sent.len(), 1);
    assert_eq!(
        dest.sent[0].parameters,
        vec![Some("1".to_string()), None, Some("global".to_string())]
    );
}

#[test]
fn rows_enter_and_leave_with_their_key() {
    let oid = Oid(16391);
    let table = make_hybrid_table();
    let mut dest = Destination::new(1, vec![table.clone()]);
    dest.route = None;
    let update = |id: &str, org_id: Option<&str>, value: &str| {
        update_copy_data(oid, UpdateIdentity::Nothing, hybrid_row(id, org_id, value))
    };
    dest.transaction(
        100,
        200,
        vec![
            relation_copy_data(oid, &table),
            update("1", None, "entered"),
            update("1", Some("org_a"), "v3"),
        ],
    );
    assert_eq!(dest.sent.len(), 2);
    assert_eq!(dest.sent[0].sql, table.upsert());
    assert_eq!(dest.sent[1].sql, table.delete());
    assert_eq!(dest.sent[1].parameters, vec![Some("1".to_string())]);
}

#[test]
fn deletes_are_always_written() {
    let oid = Oid(16392);
    let table = make_hybrid_table();
    let mut dest = Destination::new(1, vec![table.clone()]);
    dest.route = None;
    let delete = |id: &str| {
        delete_copy_data(
            oid,
            Some(row(vec![text_column(id), null_column(), null_column()])),
            None,
        )
    };
    dest.transaction(
        300,
        400,
        vec![relation_copy_data(oid, &table), delete("1"), delete("2")],
    );
    assert_eq!(dest.sent.len(), 2);
    assert_eq!(dest.sent[0].parameters, vec![Some("1".to_string())]);
    assert_eq!(dest.sent[1].parameters, vec![Some("2".to_string())]);
}

// ── Failures ────────────────────────────────────────────────────────

#[test]
fn a_failure_drops_the_connections() {
    let mut sub =
        StreamSubscriber::new(&cluster(2), &vec![make_sharded_table()], OmniOwnership::test());
    assert!(matches!(sub.handle(&begin_copy_data(100), &mut 1), Action::Connect));
    assert!(matches!(
        sub.resume(Event::Failed(Error::NotConnected), &mut 1),
        Action::Failed(Error::NotConnected)
    ));
    assert!(!sub.in_transaction());
    // The next message connects again.
    assert!(matches!(sub.handle(&begin_copy_data(100), &mut 1), Action::Connect));
}

#[test]
fn unknown_tables_are_passed_over() {
    let mut dest = make_subscriber();
    dest.transaction(
        100,
        200,
        vec![insert_copy_data(Oid(9), vec![text_column("1"), text_column("x")])],
    );
    assert!(dest.sent.is_empty());
}

#[test]
fn errors_of_a_destination_are_handed_on() {
    assert!(check_reply(Reply::Message('1')).is_ok());
    let failed = Reply::Error(ErrorResponse {
        code: "23505".into(),
        message: "duplicate key".into(),
    });
    assert!(matches!(check_reply(failed), Err(Error::PgError(_))));
    assert!(matches!(check_reply(Reply::Message('?')), Err(Error::OutOfSync('?'))));
    assert_eq!(transaction_statements().len(), 2);
    assert_eq!(TRANSACTION_REPLIES, 3);
}

#[test]
fn a_keepalive_moves_an_idle_stream() {
    let mut dest = make_subscriber();
    dest.transaction(50, 100, vec![]);
    let status = keepalive(&mut dest.sub, 150, true, 3).unwrap();
    assert_eq!(status.last_flushed, 150);
    assert_eq!(status.system_clock, 3);

    dest.handle(begin_copy_data(300)).unwrap();
    let status = keepalive(&mut dest.sub, 250, true, 4).unwrap();
    assert_eq!(status.last_flushed, 150);
    assert!(keepalive(&mut dest.sub, 250, false, 4).is_none());
}

#[test]
fn retries_are_bounded() {
    let mut run = ReplicationLoop::new(2);
    assert!(run.listens_for_stop());
    let failed = || LoopEvent::Failed(Error::NotConnected);
    assert!(matches!(run.next(failed()), LoopAction::Reconnect));
    assert!(matches!(run.next(failed()), LoopAction::Reconnect));
    assert!(matches!(run.next(failed()), LoopAction::Fail(Error::NotConnected)));
    let mut run = ReplicationLoop::new(2);
    assert!(matches!(
        run.next(LoopEvent::Failed(Error::MissingData)),
        LoopAction::Fail(Error::MissingData)
    ));
}

#[test]
fn missed_rows_add_up() {
    let mut one = MissedRows::default();
    assert!(!one.non_zero());
    one.record("INSERT");
    one.record("UPDATE");
    let mut two = MissedRows::default();
    two.record("DELETE");
    two.record("UPDATE");

    let mut left = one;
    left.merge(two);
    let mut right = two;
    right.merge(one);
    assert_eq!(left.counts(), right.counts());
    assert_eq!(left.to_text(), "insert=1 update=2 delete=1");
    assert_eq!(MissedRows::merge_all(&vec![one, two]).to_text(), left.to_text());
    assert_eq!(two.to_text(), "update=1 delete=1");
}

#[test]
fn a_shard_without_a_primary_is_not_connected_to() {
    let sub = StreamSubscriber::new(&cluster(2), &vec![], OmniOwnership::test());
    assert!(matches!(sub.connect(), Err(Error::NoPrimary)));
    let sub = StreamSubscriber::new(&cluster(0), &vec![], OmniOwnership::test());
    assert!(sub.connect().unwrap().is_empty());
}

#[test]
fn rows_of_another_length_are_refused() {
    let oid = Oid(16384);
    let table = make_full_identity_sharded_table();
    let mut dest = Destination::new(1, vec![table.clone()]);
    dest.handle(begin_copy_data(100)).unwrap();
    dest.handle(relation_copy_data(oid, &table)).unwrap();
    assert!(matches!(
        dest.handle(update_copy_data(
            oid,
            UpdateIdentity::Old(row(vec![text_column("1")])),
            vec![text_column("2"), text_column("x")],
        )),
        Err(Error::MissingData)
    ));
}

#[test]
fn a_table_without_its_filter_column_is_refused() {
    let mut table = make_hybrid_table();
    table.null_filter_column = Some("no_such_column".into());
    let mut dest = Destination::new(1, vec![table.clone()]);
    match dest.handle(relation_copy_data(Oid(7), &table)) {
        Err(Error::BroadcastNullColumnMissing { column, .. }) => {
            assert_eq!(column, "no_such_column")
        }
        other => panic!("unexpected result {:?}", other),
    }
}

#[test]
fn a_row_that_changes_shards_is_moved() {
    let oid = Oid(16384);
    let table = make_full_identity_sharded_table();
    let mut sub = StreamSubscriber::new(&cluster(2), &vec![table.clone()], OmniOwnership::test());
    sub.connected(2);
    assert!(matches!(sub.handle(&begin_copy_data(100), &mut 1), Action::Done(None)));
    assert!(matches!(
        sub.handle(&relation_copy_data(oid, &table), &mut 1),
        Action::Prepare(_)
    ));
    assert!(matches!(sub.resume(Event::Prepared, &mut 1), Action::Done(None)));
    let update = update_copy_data(
        oid,
        UpdateIdentity::Old(row(vec![text_column("1"), text_column("kept")])),
        vec![text_column("2"), toasted_column()],
    );
    match sub.handle(&update, &mut 1) {
        Action::Route { binds, .. } => assert_eq!(binds.len(), 2),
        other => panic!("unexpected action {:?}", other),
    }
    match sub.resume(Event::Routed(vec![Shard::Direct(1), Shard::Direct(0)]), &mut 1) {
        Action::Send(writes) => {
            assert_eq!(writes.len(), 2);
            // Gone from the old shard, and whole on the new one.
            assert_eq!(writes[0].targets, vec![0]);
            assert_eq!(writes[1].targets, vec![1]);
            let values: Vec<&str> = writes[1]
                .bind
                .parameters
                .iter()
                .map(|p| p.as_ref().unwrap().text().unwrap())
                .collect();
            assert_eq!(values, vec!["2", "kept"]);
        }
        other => panic!("unexpected action {:?}", other),
    }
    assert!(matches!(sub.resume(Event::Sent, &mut 1), Action::Done(None)));
}

#[test]
fn nothing_is_committed_before_every_answer() {
    let mut sub =
        StreamSubscriber::new(&cluster(2), &vec![make_sharded_table()], OmniOwnership::test());
    sub.connected(2);
    sub.handle(&begin_copy_data(100), &mut 1);
    assert!(matches!(sub.handle(&commit_copy_data(200), &mut 1), Action::Drain));
    assert!(matches!(
        sub.resume(Event::Failed(Error::NotConnected), &mut 1),
        Action::Failed(Error::NotConnected)
    ));
    assert_eq!(sub.status_update(0).last_flushed, 0);
}

#[test]
fn subscribers_that_share_a_counter_share_no_name() {
    let table = make_sharded_table();
    let mut counter = 1;
    let mut names = vec![];
    for _ in 0..2 {
        let mut sub =
            StreamSubscriber::new(&cluster(1), &vec![table.clone()], OmniOwnership::test());
        sub.connected(1);
        match sub.handle(&relation_copy_data(Oid(1), &table), &mut counter) {
            Action::Prepare(parses) => names.extend(parses.into_iter().map(|p| p.name)),
            other => panic!("unexpected action {:?}", other),
        }
    }
    let expected: Vec<String> = (1..9).map(|n| format!("__pgdog_repl_{n}")).collect();
    assert_eq!(names, expected);
    assert_eq!(counter, 9);
}

#[test]
fn each_table_is_checked_for_its_index_once() {
    let table = make_full_identity_omni_table();
    let sub = StreamSubscriber::new(
        &cluster(1),
        &vec![table.clone(), table.clone(), make_sharded_table()],
        OmniOwnership::test(),
    );
    let tables = sub.omni_full_tables();
    assert_eq!(tables.len(), 1);
    assert_eq!(tables[0].name, "full_events_omni");
}
