use pgdog::schema::ast::{
    AlterCmd, AlterSeqStmt, AlterTableCmd, AlterTableStmt, AlterTableType, CmdDef, Column,
    ColumnDef, ConstrType, Constraint, CreateStmt, IndexStmt, Node, ObjectType, RangeVar, RawStmt,
    SeqOption, TableElt, TableName,
};
use pgdog::schema::error::SchemaSyncError;
use pgdog::schema::pg_dump::{
    setval_from_column, PgDumpOutput, Rewrite, Statement, SyncState,
};

/// A dump of these statements, in order.
fn dump(parts: Vec<(&str, Node)>) -> PgDumpOutput {
    let mut original = String::new();
    let mut stmts = Vec::new();
    for (sql, node) in parts {
        original.push('\n');
        stmts.push(RawStmt {
            node,
            stmt_location: original.len() as i32,
            stmt_len: sql.len() as i32,
        });
        original.push_str(sql);
        original.push(';');
    }
    PgDumpOutput { stmts, original }
}

fn range_var(name: &str) -> RangeVar {
    RangeVar {
        schemaname: None,
        relname: Some(name.to_string()),
        inh: true,
    }
}

fn column_def(name: &str, kind: &str) -> TableElt {
    let names = match kind {
        "INTEGER" => vec!["pg_catalog", "int4"],
        "BIGINT" => vec!["pg_catalog", "int8"],
        "TEXT" => vec!["text"],
        "UUID" => vec!["uuid"],
        "DATE" => vec!["date"],
        other => panic!("unexpected type {}", other),
    };
    TableElt::ColumnDef(ColumnDef {
        colname: Some(name.to_string()),
        type_names: Some(names.into_iter().map(|n| Some(n.to_string())).collect()),
    })
}

fn create(table: &str, columns: &[(&str, &str)], partitioned: bool) -> Node {
    Node::CreateStmt(CreateStmt {
        relation: Some(range_var(table)),
        partspec: partitioned,
        table_elts: columns.iter().map(|(n, t)| column_def(n, t)).collect(),
    })
}

fn names(list: &[&str]) -> Vec<Option<String>> {
    list.iter().map(|n| Some(n.to_string())).collect()
}

fn alter(table: &str, subtype: AlterTableType, def: CmdDef) -> Node {
    Node::AlterTableStmt(AlterTableStmt {
        relation: Some(range_var(table)),
        objtype: ObjectType::Table,
        cmds: vec![AlterCmd::AlterTableCmd(AlterTableCmd { subtype, def })],
    })
}

fn primary_key(table: &str, columns: &[&str]) -> Node {
    alter(
        table,
        AlterTableType::AddConstraint,
        CmdDef::Constraint(Constraint {
            contype: ConstrType::Primary,
            keys: names(columns),
            pktable: None,
            pk_attrs: vec![],
            fk_attrs: vec![],
        }),
    )
}

fn foreign_key(table: &str, columns: &[&str], parent: &str, parent_columns: &[&str]) -> Node {
    alter(
        table,
        AlterTableType::AddConstraint,
        CmdDef::Constraint(Constraint {
            contype: ConstrType::Foreign,
            keys: vec![],
            pktable: Some(range_var(parent)),
            pk_attrs: names(parent_columns),
            fk_attrs: names(columns),
        }),
    )
}

fn attach(parent: &str, partition: &str) -> Node {
    alter(
        parent,
        AlterTableType::AttachPartition,
        CmdDef::PartitionCmd(Some(range_var(partition))),
    )
}

/// What a deparser gives for the rewrites of these statements.
fn word(output: &PgDumpOutput, state: SyncState) -> Vec<Result<String, String>> {
    let rewrites = output.rewrites(state);
    assert_eq!(rewrites.len(), output.stmts.len());
    let mut out = Vec::new();
    for (rewrite, stmt) in rewrites.iter().zip(&output.stmts) {
        let start = stmt.stmt_location as usize;
        let sql = &output.original[start..start + stmt.stmt_len as usize];
        out.push(match (rewrite, &stmt.node) {
            (None, _) => Err("no rewrite".to_string()),
            (Some(Rewrite::CreateTable { bigint }), Node::CreateStmt(create)) => {
                let mut columns = Vec::new();
                for (elt, wide) in create.table_elts.iter().zip(bigint) {
                    if let TableElt::ColumnDef(def) = elt {
                        let last = def.type_names.as_ref().unwrap().last().unwrap();
                        let kind = match last.as_ref().unwrap().as_str() {
                            _ if *wide => "bigint",
                            "int4" => "int",
                            "int8" => "bigint",
                            other => other,
                        };
                        columns.push(format!("{} {}", def.colname.as_ref().unwrap(), kind));
                    }
                }
                let relation = create.relation.as_ref().unwrap();
                Ok(format!(
                    "CREATE TABLE IF NOT EXISTS {} ({})",
                    relation.relname.as_ref().unwrap(),
                    columns.join(", ")
                ))
            }
            (Some(Rewrite::IfNotExists), _) => Ok(format!("{} IF NOT EXISTS", sql)),
            (Some(Rewrite::Replace), _) => Ok(sql.replacen("CREATE", "CREATE OR REPLACE", 1)),
            (Some(Rewrite::Index { concurrent }), _) => Ok(if *concurrent {
                sql.replacen("INDEX", "INDEX CONCURRENTLY", 1)
            } else {
                sql.to_string()
            }),
            (Some(other), _) => panic!("unexpected rewrite {:?}", other),
        });
    }
    out
}

fn statements(output: &PgDumpOutput, state: SyncState) -> Vec<Statement> {
    output.statements(state, &word(output, state)).unwrap()
}

fn has_column(columns: &Vec<Column>, table: &str, name: &str) -> bool {
    let wanted = Column {
        name: name.to_string(),
        table: Some(table.to_string()),
        schema: Some("public".to_string()),
    };
    columns.iter().any(|c| c.same(&wanted))
}

#[test]
fn test_generated_identity() {
    let output = dump(vec![(
        "ALTER TABLE public.users ALTER COLUMN id ADD GENERATED ALWAYS AS IDENTITY (
            SEQUENCE NAME public.users_id_seq
            START WITH 1
            INCREMENT BY 1
            NO MINVALUE
            NO MAXVALUE
            CACHE 1
        )",
        alter("users", AlterTableType::AddIdentity, CmdDef::Other),
    )]);

    assert!(statements(&output, SyncState::PreData).is_empty());
    assert!(statements(&output, SyncState::Cutover).is_empty());
    assert!(statements(&output, SyncState::PostData).is_empty());
}

#[test]
fn test_integer_primary_key_columns() {
    let output = dump(vec![
        (
            "CREATE TABLE users (id INTEGER, name TEXT)",
            create("users", &[("id", "INTEGER"), ("name", "TEXT")], false),
        ),
        (
            "ALTER TABLE users ADD CONSTRAINT users_pkey PRIMARY KEY (id)",
            primary_key("users", &["id"]),
        ),
    ]);

    let pk_columns = output.integer_primary_key_columns();

    assert_eq!(pk_columns.len(), 1);
    assert!(has_column(&pk_columns, "users", "id"));
}

#[test]
fn test_non_integer_pk_excluded() {
    let output = dump(vec![
        (
            "CREATE TABLE users (id UUID, name TEXT)",
            create("users", &[("id", "UUID"), ("name", "TEXT")], false),
        ),
        (
            "ALTER TABLE users ADD CONSTRAINT users_pkey PRIMARY KEY (id)",
            primary_key("users", &["id"]),
        ),
    ]);

    let pk_columns = output.integer_primary_key_columns();

    assert_eq!(pk_columns.len(), 0);
}

fn parent_and_child() -> PgDumpOutput {
    dump(vec![
        (
            "CREATE TABLE parent (id INTEGER, name TEXT)",
            create("parent", &[("id", "INTEGER"), ("name", "TEXT")], false),
        ),
        (
            "CREATE TABLE child (id INTEGER, parent_id INTEGER)",
            create("child", &[("id", "INTEGER"), ("parent_id", "INTEGER")], false),
        ),
        (
            "ALTER TABLE parent ADD CONSTRAINT parent_pkey PRIMARY KEY (id)",
            primary_key("parent", &["id"]),
        ),
        (
            "ALTER TABLE child ADD CONSTRAINT child_parent_fk FOREIGN KEY (parent_id) REFERENCES parent(id)",
            foreign_key("child", &["parent_id"], "parent", &["id"]),
        ),
    ])
}

#[test]
fn test_integer_foreign_key_columns() {
    let output = parent_and_child();

    let fk_columns = output.integer_foreign_key_columns();

    assert_eq!(fk_columns.len(), 1);
    assert!(has_column(&fk_columns, "child", "parent_id"));
}

#[test]
fn test_integer_foreign_key_columns_composite() {
    let output = dump(vec![
        (
            "CREATE TABLE parent (id1 INTEGER, id2 INTEGER, name TEXT)",
            create("parent", &[("id1", "INTEGER"), ("id2", "INTEGER"), ("name", "TEXT")], false),
        ),
        (
            "CREATE TABLE child (id INTEGER, parent_id1 INTEGER, parent_id2 INTEGER)",
            create(
                "child",
                &[("id", "INTEGER"), ("parent_id1", "INTEGER"), ("parent_id2", "INTEGER")],
                false,
            ),
        ),
        (
            "ALTER TABLE parent ADD CONSTRAINT parent_pkey PRIMARY KEY (id1, id2)",
            primary_key("parent", &["id1", "id2"]),
        ),
        (
            "ALTER TABLE child ADD CONSTRAINT child_parent_fk FOREIGN KEY (parent_id1, parent_id2) REFERENCES parent(id1, id2)",
            foreign_key("child", &["parent_id1", "parent_id2"], "parent", &["id1", "id2"]),
        ),
    ]);

    let fk_columns = output.integer_foreign_key_columns();

    assert_eq!(fk_columns.len(), 2);
    assert!(has_column(&fk_columns, "child", "parent_id1"));
    assert!(has_column(&fk_columns, "child", "parent_id2"));
}

#[test]
fn test_integer_primary_key_columns_composite() {
    let output = dump(vec![
        (
            "CREATE TABLE order_items (order_id INTEGER, item_id INTEGER, quantity INTEGER)",
            create(
                "order_items",
                &[("order_id", "INTEGER"), ("item_id", "INTEGER"), ("quantity", "INTEGER")],
                false,
            ),
        ),
        (
            "ALTER TABLE order_items ADD CONSTRAINT order_items_pkey PRIMARY KEY (order_id, item_id)",
            primary_key("order_items", &["order_id", "item_id"]),
        ),
    ]);

    let pk_columns = output.integer_primary_key_columns();

    assert_eq!(pk_columns.len(), 2);
    assert!(has_column(&pk_columns, "order_items", "order_id"));
    assert!(has_column(&pk_columns, "order_items", "item_id"));
}

#[test]
fn test_bigint_rewrite() {
    let output = dump(vec![
        (
            "CREATE TABLE test (id INTEGER, value TEXT)",
            create("test", &[("id", "INTEGER"), ("value", "TEXT")], false),
        ),
        (
            "ALTER TABLE test ADD CONSTRAINT id_pkey PRIMARY KEY (id)",
            primary_key("test", &["id"]),
        ),
    ]);

    let statements = statements(&output, SyncState::PreData);
    assert_eq!(statements.len(), 2);

    assert_eq!(
        statements[0].sql,
        "CREATE TABLE IF NOT EXISTS test (id bigint, value text)"
    );
    assert_eq!(
        statements[1].sql,
        "ALTER TABLE test ADD CONSTRAINT id_pkey PRIMARY KEY (id)"
    );
}

#[test]
fn test_bigint_rewrite_foreign_key() {
    let output = parent_and_child();

    let pre_data = statements(&output, SyncState::PreData);
    assert_eq!(pre_data.len(), 3);

    assert_eq!(
        pre_data[0].sql,
        "CREATE TABLE IF NOT EXISTS parent (id bigint, name text)"
    );
    assert_eq!(
        pre_data[1].sql,
        "CREATE TABLE IF NOT EXISTS child (id int, parent_id bigint)"
    );
    assert_eq!(
        pre_data[2].sql,
        "ALTER TABLE parent ADD CONSTRAINT parent_pkey PRIMARY KEY (id)"
    );

    // The foreign key waits for the data.
    let post_data = statements(&output, SyncState::PostData);
    assert_eq!(post_data.len(), 1);
    assert!(post_data[0].sql.contains("FOREIGN KEY (parent_id)"));
}

#[test]
fn test_attach_partition() {
    let output = dump(vec![
        (
            "CREATE TABLE parent (id INTEGER, created_at DATE) PARTITION BY RANGE (created_at)",
            create("parent", &[("id", "INTEGER"), ("created_at", "DATE")], true),
        ),
        (
            "CREATE TABLE parent_2024 (id INTEGER, created_at DATE)",
            create("parent_2024", &[("id", "INTEGER"), ("created_at", "DATE")], false),
        ),
        (
            "ALTER TABLE ONLY parent ATTACH PARTITION parent_2024 FOR VALUES FROM ('2024-01-01') TO ('2025-01-01')",
            attach("parent", "parent_2024"),
        ),
    ]);

    let pre_data = statements(&output, SyncState::PreData);
    let post_data = statements(&output, SyncState::PostData);

    assert_eq!(pre_data.len(), 3);
    assert!(pre_data[2].sql.contains("ATTACH PARTITION"));
    assert!(post_data.is_empty());
}

#[test]
fn attaching_an_index_waits_for_the_data() {
    let output = dump(vec![(
        "ALTER INDEX parent_idx ATTACH PARTITION parent_2024_idx",
        Node::AlterTableStmt(AlterTableStmt {
            relation: Some(range_var("parent_idx")),
            objtype: ObjectType::Index,
            cmds: vec![AlterCmd::AlterTableCmd(AlterTableCmd {
                subtype: AlterTableType::AttachPartition,
                def: CmdDef::PartitionCmd(Some(range_var("parent_2024_idx"))),
            })],
        }),
    )]);

    assert!(statements(&output, SyncState::PreData).is_empty());
    assert_eq!(
        statements(&output, SyncState::PostData)[0].sql,
        "ALTER INDEX parent_idx ATTACH PARTITION parent_2024_idx"
    );
}

#[test]
fn test_replica_identity_runs_after_indexes() {
    let output = dump(vec![
        (
            "CREATE TABLE commands (id BIGINT NOT NULL, organization_id BIGINT NOT NULL)",
            create("commands", &[("id", "BIGINT"), ("organization_id", "BIGINT")], false),
        ),
        (
            "CREATE UNIQUE INDEX commands_org_idx ON commands (id, organization_id)",
            Node::IndexStmt(IndexStmt {
                relation: Some(range_var("commands")),
                idxname: "commands_org_idx".to_string(),
            }),
        ),
        (
            "ALTER TABLE ONLY commands REPLICA IDENTITY USING INDEX commands_org_idx",
            alter("commands", AlterTableType::ReplicaIdentity, CmdDef::Other),
        ),
        (
            "CREATE TABLE events (id BIGINT NOT NULL)",
            create("events", &[("id", "BIGINT")], false),
        ),
        (
            "ALTER TABLE ONLY events REPLICA IDENTITY FULL",
            alter("events", AlterTableType::ReplicaIdentity, CmdDef::Other),
        ),
    ]);

    let pre_data = statements(&output, SyncState::PreData);
    let post_data = statements(&output, SyncState::PostData);

    assert!(
        pre_data
            .iter()
            .all(|stmt| !stmt.sql.contains("REPLICA IDENTITY")),
        "replica identity must not run before its index exists"
    );

    let identities: Vec<&Statement> = post_data
        .iter()
        .filter(|stmt| stmt.sql.contains("REPLICA IDENTITY"))
        .collect();
    assert_eq!(identities.len(), 2);
    assert!(identities[0]
        .sql
        .contains("REPLICA IDENTITY USING INDEX commands_org_idx"));
    assert!(identities[1].sql.contains("REPLICA IDENTITY FULL"));

    let index_position = post_data
        .iter()
        .position(|stmt| stmt.sql.contains("CREATE UNIQUE INDEX"))
        .expect("the index restores in post-data");
    let identity_position = post_data
        .iter()
        .position(|stmt| stmt.sql.contains("REPLICA IDENTITY USING INDEX"))
        .expect("the identity restores in post-data");
    assert!(index_position < identity_position);
}

#[test]
fn test_create_publication_restored() {
    let output = dump(vec![(
        "CREATE PUBLICATION my_pub FOR TABLE users, orders",
        Node::CreatePublicationStmt {
            pubname: Some("my_pub".to_string()),
        },
    )]);

    let statements = statements(&output, SyncState::PreData);

    assert_eq!(statements.len(), 2);
    assert_eq!(statements[0].sql, "DROP PUBLICATION IF EXISTS \"my_pub\"");
    assert_eq!(
        statements[1].sql,
        "CREATE PUBLICATION my_pub FOR TABLE users, orders"
    );
    assert!(!statements[0].skip_if_exists);
    assert!(statements[1].skip_if_exists);
}

#[test]
fn test_alter_publication_add_table_restored() {
    let output = dump(vec![(
        "ALTER PUBLICATION my_pub ADD TABLE ONLY public.users",
        Node::AlterPublicationStmt,
    )]);

    let statements = statements(&output, SyncState::PreData);

    assert_eq!(statements.len(), 1);
    assert!(statements[0]
        .sql
        .contains("ALTER PUBLICATION my_pub ADD TABLE"));
}

#[test]
fn test_partitioned_child_inherits_bigint_from_parent() {
    let orders = [("id", "INTEGER"), ("user_id", "INTEGER"), ("created_at", "DATE")];
    let output = dump(vec![
        ("CREATE TABLE users (id INTEGER)", create("users", &[("id", "INTEGER")], false)),
        (
            "CREATE TABLE orders (id INTEGER, user_id INTEGER, created_at DATE) PARTITION BY RANGE (created_at)",
            create("orders", &orders, true),
        ),
        (
            "CREATE TABLE orders_2024 (id INTEGER, user_id INTEGER, created_at DATE)",
            create("orders_2024", &orders, false),
        ),
        (
            "ALTER TABLE users ADD CONSTRAINT users_pkey PRIMARY KEY (id)",
            primary_key("users", &["id"]),
        ),
        (
            "ALTER TABLE orders ADD CONSTRAINT orders_pkey PRIMARY KEY (id)",
            primary_key("orders", &["id"]),
        ),
        (
            "ALTER TABLE orders ADD CONSTRAINT orders_user_fk FOREIGN KEY (user_id) REFERENCES users(id)",
            foreign_key("orders", &["user_id"], "users", &["id"]),
        ),
        (
            "ALTER TABLE ONLY orders ATTACH PARTITION orders_2024 FOR VALUES FROM ('2024-01-01') TO ('2025-01-01')",
            attach("orders", "orders_2024"),
        ),
    ]);

    let statements = statements(&output, SyncState::PreData);

    let parent_sql = statements
        .iter()
        .map(|stmt| stmt.sql.as_str())
        .find(|sql| sql.contains("orders") && !sql.contains("orders_2024"))
        .expect("should find parent table");
    assert!(
        parent_sql.contains("id bigint"),
        "parent id should be bigint: {}",
        parent_sql
    );
    assert!(
        parent_sql.contains("user_id bigint"),
        "parent user_id should be bigint: {}",
        parent_sql
    );

    let child_sql = statements
        .iter()
        .map(|stmt| stmt.sql.as_str())
        .find(|sql| sql.contains("orders_2024"))
        .expect("should find child table");
    assert!(
        child_sql.contains("id bigint"),
        "child id should be bigint: {}",
        child_sql
    );
    assert!(
        child_sql.contains("user_id bigint"),
        "child user_id should be bigint: {}",
        child_sql
    );
}

fn owned_sequence() -> PgDumpOutput {
    dump(vec![(
        "ALTER SEQUENCE public.users_id_seq OWNED BY public.users.id",
        Node::AlterSeqStmt(AlterSeqStmt {
            sequence: Some(range_var("users_id_seq")),
            options: vec![SeqOption::Column(Column {
                name: "id".to_string(),
                table: Some("users".to_string()),
                schema: Some("public".to_string()),
            })],
        }),
    )])
}

#[test]
fn sequences_are_set_at_the_cutover() {
    let output = owned_sequence();

    let pre_data = statements(&output, SyncState::PreData);
    assert_eq!(pre_data.len(), 1);
    assert_eq!(
        pre_data[0].sql,
        "ALTER SEQUENCE public.users_id_seq OWNED BY public.users.id"
    );
    assert!(statements(&output, SyncState::PostData).is_empty());

    let cutover = statements(&output, SyncState::Cutover);
    assert_eq!(cutover.len(), 1);
    assert_eq!(
        cutover[0].sql,
        r#"SELECT setval('"public"."users_id_seq"', COALESCE((SELECT MAX("id") FROM "public"."users"), 1), true)"#
    );
    assert!(output.rewrites(SyncState::Cutover)[0].is_none());
}

#[test]
fn names_are_escaped_where_a_sequence_is_set() {
    let sequence = TableName {
        schema: Some("a'b".to_string()),
        name: "c\"d".to_string(),
    };
    let column = |table: Option<&str>| Column {
        name: "e\"f".to_string(),
        table: table.map(|t| t.to_string()),
        schema: None,
    };
    assert_eq!(
        setval_from_column(&sequence, &column(Some("t"))).unwrap(),
        r#"SELECT setval('"a''b"."c""d"', COALESCE((SELECT MAX("e""f") FROM "public"."t"), 1), true)"#
    );
    assert!(setval_from_column(&sequence, &column(None)).is_none());
}

#[test]
fn a_sequence_owned_by_no_table_is_refused_at_the_cutover() {
    let output = dump(vec![(
        "ALTER SEQUENCE s OWNED BY id",
        Node::AlterSeqStmt(AlterSeqStmt {
            sequence: Some(range_var("s")),
            options: vec![SeqOption::Column(Column {
                name: "id".to_string(),
                table: None,
                schema: None,
            })],
        }),
    )]);
    let nothing = vec![Err("no rewrite".to_string())];
    assert_eq!(output.statements(SyncState::PreData, &nothing).unwrap().len(), 1);
    assert!(matches!(
        output.statements(SyncState::Cutover, &nothing),
        Err(SchemaSyncError::MissingEntity)
    ));
}

#[test]
fn a_sequence_without_an_owner_is_refused() {
    let output = dump(vec![(
        "ALTER SEQUENCE public.users_id_seq RESTART",
        Node::AlterSeqStmt(AlterSeqStmt {
            sequence: Some(range_var("users_id_seq")),
            options: vec![SeqOption::Other],
        }),
    )]);
    let nothing = vec![Err("no rewrite".to_string())];

    assert!(matches!(
        output.statements(SyncState::PreData, &nothing),
        Err(SchemaSyncError::MissingEntity)
    ));
    assert!(matches!(
        output.statements(SyncState::Cutover, &nothing),
        Err(SchemaSyncError::MissingEntity)
    ));
    assert!(output
        .statements(SyncState::PostData, &nothing)
        .unwrap()
        .is_empty());
}

#[test]
fn a_statement_outside_the_text_is_refused() {
    let mut output = owned_sequence();
    output.stmts[0].stmt_len += 2;

    assert!(matches!(
        output.statements(SyncState::PostData, &vec![Err(String::new())]),
        Err(SchemaSyncError::StmtOutOfBounds)
    ));
}

#[test]
fn a_statement_that_cannot_be_worded_fails_the_dump() {
    let output = dump(vec![(
        "CREATE TABLE users (id INTEGER)",
        create("users", &[("id", "INTEGER")], false),
    )]);

    match output.statements(SyncState::PreData, &vec![Err("no deparse".to_string())]) {
        Err(SchemaSyncError::Parser(e)) => assert_eq!(e, "no deparse"),
        other => panic!("unexpected result {:?}", other),
    }
}

#[test]
fn indexes_are_dropped_and_made_again() {
    let output = dump(vec![(
        "CREATE INDEX users_idx ON users (id)",
        Node::IndexStmt(IndexStmt {
            relation: Some(range_var("users")),
            idxname: "users_idx".to_string(),
        }),
    )]);

    assert!(statements(&output, SyncState::PreData).is_empty());
    let post_data = statements(&output, SyncState::PostData);
    assert_eq!(post_data.len(), 2);
    assert_eq!(
        post_data[0].sql,
        "DROP INDEX IF EXISTS \"public\".\"users_idx\""
    );
    assert_eq!(post_data[1].sql, "CREATE INDEX CONCURRENTLY users_idx ON users (id)");
}

#[test]
fn types_may_exist_already() {
    let output = dump(vec![
        ("CREATE TYPE mood AS ENUM ('ok')", Node::CreateEnumStmt),
        ("SET row_security = off", Node::VariableSetStmt),
        ("SELECT 1", Node::SelectStmt),
        ("COMMENT ON TABLE users IS 'x'", Node::Other),
        (
            "ALTER PUBLICATION my_pub OWNER TO someone",
            Node::AlterOwnerStmt {
                object_type: ObjectType::Publication,
            },
        ),
    ]);

    let pre_data = statements(&output, SyncState::PreData);
    assert_eq!(pre_data.len(), 2);
    assert_eq!(pre_data[0].sql, "CREATE TYPE mood AS ENUM ('ok')");
    assert!(pre_data[0].skip_if_exists);
    assert_eq!(pre_data[1].sql, "COMMENT ON TABLE users IS 'x'");
    assert!(!pre_data[1].skip_if_exists);
}

/// A command of a table runs in one phase only.
#[test]
fn commands_run_in_one_phase() {
    let output = parent_and_child();
    let key = "ALTER TABLE parent ADD CONSTRAINT parent_pkey PRIMARY KEY (id)";
    let runs: usize = [SyncState::PreData, SyncState::PostData, SyncState::Cutover]
        .into_iter()
        .map(|state| statements(&output, state).iter().filter(|s| s.sql == key).count())
        .sum();
    assert_eq!(runs, 1);
}
