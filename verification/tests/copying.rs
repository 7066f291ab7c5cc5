use pgdog::config::CopyFormat;
use pgdog::replication::copy::CopyProgress;
use pgdog::replication::copy_statement::CopyStatement;
use pgdog::replication::error::{Error, ErrorResponse};
use pgdog::replication::stream::Reply;
use pgdog::replication::table::{
    Lsn, PublicationTable, PublicationTableColumn, ReplicaIdentity, Table,
};
use pgdog::replication::tuple::Oid;

#[test]
fn test_copy_stmt() {
    let table = PublicationTable {
        schema: "public".into(),
        name: "test".into(),
        ..Default::default()
    };

    let copy = CopyStatement::new(&table, &vec!["id".into(), "email".into()], CopyFormat::Binary);
    let copy_in = copy.copy_in();
    assert_eq!(
        copy_in,
        r#"COPY "public"."test" ("id", "email") FROM STDIN WITH (FORMAT binary)"#
    );

    assert_eq!(
        copy.copy_out(),
        r#"COPY "public"."test" ("id", "email") TO STDOUT WITH (FORMAT binary)"#
    );

    let table = PublicationTable {
        schema: "public".into(),
        name: "test_0".into(),
        parent_name: "test".into(),
        parent_schema: "public".into(),
        ..Default::default()
    };

    let copy = CopyStatement::new(&table, &vec!["id".into(), "email".into()], CopyFormat::Binary);
    let copy_in = copy.copy_in();
    assert_eq!(
        copy_in,
        r#"COPY "public"."test" ("id", "email") FROM STDIN WITH (FORMAT binary)"#
    );

    assert_eq!(
        copy.copy_out(),
        r#"COPY "public"."test_0" ("id", "email") TO STDOUT WITH (FORMAT binary)"#
    );
}

#[test]
fn test_copy_stmt_null_filter() {
    let table = PublicationTable {
        schema: "public".into(),
        name: "packages".into(),
        ..Default::default()
    };

    let copy = CopyStatement::new(&table, &vec!["id".into(), "org_id".into()], CopyFormat::Binary)
        .with_null_filter("org_id");

    // Source side: the query form carries the filter.
    assert_eq!(
        copy.copy_out(),
        r#"COPY (SELECT "id", "org_id" FROM "public"."packages" WHERE "org_id" IS NULL) TO STDOUT WITH (FORMAT binary)"#
    );

    // Destination side receives pre-filtered rows: plain form.
    assert_eq!(
        copy.copy_in(),
        r#"COPY "public"."packages" ("id", "org_id") FROM STDIN WITH (FORMAT binary)"#
    );
}

#[test]
fn test_copy_stmt_predicate() {
    let table = PublicationTable {
        schema: "public".into(),
        name: "orders".into(),
        ..Default::default()
    };

    let copy = CopyStatement::new(
        &table,
        &vec!["id".into(), "tenant_id".into()],
        CopyFormat::Binary,
    )
    .with_predicate(r#""tenant_id" = ANY(ARRAY['11', '12'])"#.into());

    // The predicate filters the copy out.
    assert_eq!(
        copy.copy_out(),
        r#"COPY (SELECT "id", "tenant_id" FROM "public"."orders" WHERE "tenant_id" = ANY(ARRAY['11', '12'])) TO STDOUT WITH (FORMAT binary)"#
    );

    // The copy in is a plain table copy: the destination takes
    // every row the filtered copy out produced.
    assert_eq!(
        copy.copy_in(),
        r#"COPY "public"."orders" ("id", "tenant_id") FROM STDIN WITH (FORMAT binary)"#
    );
}

#[test]
fn the_filter_column_is_escaped() {
    let table = PublicationTable {
        schema: "public".into(),
        name: "packages".into(),
        ..Default::default()
    };
    let copy = CopyStatement::new(&table, &vec!["id".into()], CopyFormat::Text)
        .with_null_filter("org\"id");
    assert_eq!(
        copy.copy_out(),
        r#"COPY (SELECT "id" FROM "public"."packages" WHERE "org""id" IS NULL) TO STDOUT WITH (FORMAT text)"#
    );
}

fn table() -> Table {
    Table {
        publication: "test".into(),
        table: PublicationTable {
            schema: "public".into(),
            name: "packages".into(),
            ..Default::default()
        },
        identity: ReplicaIdentity {
            oid: Oid(1),
            identity: String::new(),
            kind: String::new(),
        },
        columns: vec![PublicationTableColumn {
            oid: 1,
            name: "id".into(),
            type_oid: Oid(20),
            identity: true,
        }],
        lsn: Lsn::default(),
        null_filter_column: Some("org_id".into()),
    }
}

#[test]
fn a_copy_starts_in_a_transaction() {
    let copy = pgdog::replication::copy::Copy::new(&table(), CopyFormat::Text);
    assert!(matches!(copy.start(false), Err(Error::TransactionNotStarted)));
    assert_eq!(
        copy.start(true).unwrap(),
        r#"COPY (SELECT "id" FROM "public"."packages" WHERE "org_id" IS NULL) TO STDOUT WITH (FORMAT text)"#
    );
    assert_eq!(copy.start(true).unwrap(), copy.statement().copy_out());
}

#[test]
fn a_copy_follows_the_replies() {
    assert!(pgdog::replication::copy::Copy::started(Reply::Message('H')).is_ok());
    assert!(matches!(pgdog::replication::copy::Copy::started(Reply::Message('Z')), Err(Error::OutOfSync('Z'))));
    assert!(matches!(pgdog::replication::copy::Copy::data(Reply::Message('d')), Ok(CopyProgress::Data)));
    assert!(matches!(pgdog::replication::copy::Copy::data(Reply::Message('Z')), Ok(CopyProgress::Done)));
    assert!(matches!(pgdog::replication::copy::Copy::data(Reply::Message('C')), Ok(CopyProgress::Continue)));
    let failed = Reply::Error(ErrorResponse {
        code: "22P04".into(),
        message: "bad copy".into(),
    });
    assert!(matches!(pgdog::replication::copy::Copy::data(failed), Err(Error::PgError(_))));
}
