use std::collections::hash_map::DefaultHasher;
use std::hash::{Hash, Hasher};

use pgdog::replication::context::{RouteAction, RouteEvent, Routed, Routing, StreamContext};
use pgdog::replication::error::Error;
use pgdog::replication::presence::NonIdentityColumnsPresence;
use pgdog::replication::routing::{targets, OmniOwnership, Shard};
use pgdog::replication::statements::{Parse, Statement};
use pgdog::replication::table::{
    Lsn, PublicationTable, PublicationTableColumn, ReplicaIdentity, Table,
};
use pgdog::replication::tuple::{Column, Format, Identifier, Oid, TupleData};

fn make_table(columns: Vec<(&str, bool)>) -> Table {
    Table {
        publication: "test".to_string(),
        table: PublicationTable {
            schema: "public".to_string(),
            name: "test_table".to_string(),
            attributes: "".to_string(),
            parent_schema: "".to_string(),
            parent_name: "".to_string(),
        },
        identity: ReplicaIdentity {
            oid: Oid(1),
            identity: "".to_string(),
            kind: "".to_string(),
        },
        columns: columns
            .into_iter()
            .map(|(name, identity)| PublicationTableColumn {
                oid: 1,
                name: name.to_string(),
                type_oid: Oid(23),
                identity,
            })
            .collect(),
        lsn: Lsn::default(),
        null_filter_column: None,
    }
}

fn text_col(data: &str) -> Column {
    Column {
        identifier: Identifier::Format(Format::Text),
        len: data.len() as i32,
        data: data.as_bytes().to_vec(),
    }
}

fn toasted_col() -> Column {
    Column {
        identifier: Identifier::Toasted,
        len: 0,
        data: vec![],
    }
}

#[test]
fn from_tuple_partial_presence() {
    let table = make_table(vec![("id", true), ("a", false), ("b", false), ("c", false)]);
    let t = TupleData {
        columns: vec![text_col("1"), text_col("x"), toasted_col(), text_col("z")],
    };
    let p = NonIdentityColumnsPresence::from_tuple(&t, &table).unwrap();
    // non-identity indices: a=0, b=1, c=2
    assert!(p.is_set(0)); // a present
    assert!(!p.is_set(1)); // b toasted
    assert!(p.is_set(2)); // c present
    assert!(!p.is_all_present());
    assert!(!p.no_non_identity_present());
    assert_eq!(p.count_present(), 2);
}

#[test]
fn all_marks_every_col() {
    let table = make_table(vec![("id", true), ("a", false), ("b", false)]);
    let p = NonIdentityColumnsPresence::all(&table);
    assert!(p.is_all_present());
}

#[test]
fn no_non_identity_present_when_all_toasted() {
    let table = make_table(vec![("id", true), ("a", false), ("b", false)]);
    let t = TupleData {
        columns: vec![text_col("1"), toasted_col(), toasted_col()],
    };
    let p = NonIdentityColumnsPresence::from_tuple(&t, &table).unwrap();
    assert!(p.no_non_identity_present());
}

#[test]
fn equal_shapes_hash_consistently() {
    let table = make_table(vec![("id", true), ("a", false), ("b", false)]);
    let p1 = NonIdentityColumnsPresence::all(&table);
    let p2 = NonIdentityColumnsPresence::all(&table);
    assert_eq!(p1, p2);

    let mut h1 = DefaultHasher::new();
    let mut h2 = DefaultHasher::new();
    p1.hash(&mut h1);
    p2.hash(&mut h2);
    assert_eq!(h1.finish(), h2.finish());
}

#[test]
fn large_table_no_limit() {
    let mut cols: Vec<(&str, bool)> = vec![("id", true)];
    let names: Vec<String> = (0..300).map(|i| format!("c{}", i)).collect();
    for n in &names {
        cols.push((n.as_str(), false));
    }
    let table = make_table(cols);
    let p = NonIdentityColumnsPresence::all(&table);
    assert!(p.is_all_present());
}

#[test]
fn a_short_row_has_no_presence() {
    let table = make_table(vec![("id", true), ("a", false)]);
    let t = TupleData {
        columns: vec![text_col("1")],
    };
    assert!(matches!(
        NonIdentityColumnsPresence::from_tuple(&t, &table),
        Err(Error::MissingData)
    ));
}

#[test]
fn test_to_bind_delete_trailing_identity() {
    // Columns: name | value | id(pk). The key holds the identity only.
    let table = make_table(vec![("name", false), ("value", false), ("id", true)]);

    let key = TupleData {
        columns: vec![text_col("99")],
    };
    let bind = key.to_bind("__pgdog_1");

    assert_eq!(bind.parameter(0).unwrap().unwrap().text(), Some("99")); // id → $1
    assert_eq!(
        table.delete(),
        r#"DELETE FROM "public"."test_table" WHERE "id" = $1"#
    );
}

#[test]
fn test_to_bind_delete_composite_key() {
    // Columns: id(pk) | name | version(pk); id+version → $1, $2.
    let table = make_table(vec![("id", true), ("name", false), ("version", true)]);

    let key = TupleData {
        columns: vec![text_col("5"), text_col("3")],
    };
    let bind = key.to_bind("__pgdog_1");

    assert_eq!(bind.parameter(0).unwrap().unwrap().text(), Some("5")); // id → $1
    assert_eq!(bind.parameter(1).unwrap().unwrap().text(), Some("3")); // version → $2
    assert_eq!(
        table.delete(),
        r#"DELETE FROM "public"."test_table" WHERE "id" = $1 AND "version" = $2"#,
    );
}

#[test]
fn test_to_bind_insert() {
    // Full row in table order.
    let table = make_table(vec![("name", false), ("value", false), ("id", true)]);
    let tuple = TupleData {
        columns: vec![text_col("alice"), text_col("42"), text_col("99")],
    };
    let bind = tuple.to_bind("__pgdog_1");

    assert_eq!(bind.parameter(0).unwrap().unwrap().text(), Some("alice")); // name → $1
    assert_eq!(bind.parameter(1).unwrap().unwrap().text(), Some("42")); // value → $2
    assert_eq!(bind.parameter(2).unwrap().unwrap().text(), Some("99")); // id → $3
    assert_eq!(
        table.insert(),
        r#"INSERT INTO "public"."test_table" ("name", "value", "id") VALUES ($1, $2, $3)"#,
    );
}

#[test]
fn test_to_bind_upsert() {
    // Same bind as insert; DO UPDATE SET reuses the same $N.
    let table = make_table(vec![("name", false), ("value", false), ("id", true)]);
    let tuple = TupleData {
        columns: vec![text_col("alice"), text_col("42"), text_col("99")],
    };
    let bind = tuple.to_bind("__pgdog_1");

    assert_eq!(bind.parameter(0).unwrap().unwrap().text(), Some("alice")); // name → $1
    assert_eq!(bind.parameter(1).unwrap().unwrap().text(), Some("42")); // value → $2
    assert_eq!(bind.parameter(2).unwrap().unwrap().text(), Some("99")); // id → $3
    assert_eq!(
        table.upsert(),
        r#"INSERT INTO "public"."test_table" ("name", "value", "id") VALUES ($1, $2, $3) ON CONFLICT ("id") DO UPDATE SET "name" = $1, "value" = $2"#,
    );
}

#[test]
fn test_to_bind_update() {
    // Full new row; positions are kept for both SET and WHERE.
    let table = make_table(vec![("name", false), ("id", true)]);
    let tuple = TupleData {
        columns: vec![text_col("alice"), text_col("99")],
    };
    let bind = tuple.to_bind("__pgdog_1");

    assert_eq!(bind.parameter(0).unwrap().unwrap().text(), Some("alice")); // name → $1
    assert_eq!(bind.parameter(1).unwrap().unwrap().text(), Some("99")); // id → $2
    assert_eq!(
        table.update(),
        r#"UPDATE "public"."test_table" SET "name" = $1 WHERE "id" = $2"#,
    );
}

#[test]
fn test_to_bind_update_partial() {
    // Columns: id(pk) | a | b | c. b is toasted: dropped from both bind and query.
    let table = make_table(vec![("id", true), ("a", false), ("b", false), ("c", false)]);
    let new_tuple = TupleData {
        columns: vec![text_col("7"), text_col("aa"), toasted_col(), text_col("cc")],
    };
    let present = NonIdentityColumnsPresence::from_tuple(&new_tuple, &table).unwrap();

    let partial = new_tuple.partial();
    let bind = partial.to_bind("__pgdog_1");

    assert_eq!(bind.parameter(0).unwrap().unwrap().text(), Some("7")); // id → $1
    assert_eq!(bind.parameter(1).unwrap().unwrap().text(), Some("aa")); // a → $2
    assert_eq!(bind.parameter(2).unwrap().unwrap().text(), Some("cc")); // c → $3
    assert_eq!(
        table.update_partial(&present),
        r#"UPDATE "public"."test_table" SET "a" = $2, "c" = $3 WHERE "id" = $1"#,
    );
}

#[test]
fn full_identity_statements_find_one_row() {
    let table = make_table(vec![("a", false), ("b", false)]);
    assert_eq!(
        table.delete_full_identity(),
        r#"DELETE FROM "public"."test_table" WHERE ctid = (SELECT ctid FROM "public"."test_table" WHERE "a" IS NOT DISTINCT FROM $1 AND "b" IS NOT DISTINCT FROM $2 LIMIT 1)"#
    );
    assert_eq!(
        table.update_full_identity(),
        r#"UPDATE "public"."test_table" SET "a" = $3, "b" = $4 WHERE ctid = (SELECT ctid FROM "public"."test_table" WHERE "a" IS NOT DISTINCT FROM $1 AND "b" IS NOT DISTINCT FROM $2 LIMIT 1)"#
    );
    assert_eq!(
        table.upsert_full_identity(),
        r#"INSERT INTO "public"."test_table" ("a", "b") VALUES ($1, $2) ON CONFLICT DO NOTHING"#
    );
}

#[test]
fn binary_parameters_keep_their_format() {
    let id: i64 = 1;
    let tuple = TupleData {
        columns: vec![Column {
            identifier: Identifier::Format(Format::Binary),
            len: 8,
            data: id.to_be_bytes().to_vec(),
        }],
    };
    let parse = Parse::named(
        String::new(),
        "INSERT INTO sharded (id) VALUES ($1)".to_string(),
    );
    let ctx = StreamContext::new(&tuple, &parse, Shard::Direct(1));
    assert_eq!(ctx.bind().parameter_format(0).unwrap(), Format::Binary);
    assert_eq!(
        ctx.bind().parameter(0).unwrap().unwrap().data(),
        &id.to_be_bytes().to_vec()
    );
    assert!(matches!(ctx.shard(), Shard::Direct(1)));
    // Bytes that are not text have none.
    let bytes = TupleData {
        columns: vec![Column {
            identifier: Identifier::Format(Format::Text),
            len: 1,
            data: vec![0xff],
        }],
    };
    assert_eq!(bytes.to_bind("s").parameter(0).unwrap().unwrap().text(), None);
}

#[test]
fn a_route_looks_up_its_keys_first() {
    let tuple = TupleData {
        columns: vec![text_col("1")],
    };
    let parse = Parse::named("__pgdog_repl_1".to_string(), "INSERT".to_string());
    let mut routing = Routing::new(&tuple, &parse);
    assert_eq!(routing.bind().statement, "__pgdog_repl_1");
    assert!(matches!(
        routing.next(RouteEvent::Routed { pending: 1, routed: Routed::Other }),
        RouteAction::Resolve
    ));
    assert!(matches!(routing.next(RouteEvent::Resolved), RouteAction::Route));
    match routing.next(RouteEvent::Routed {
        pending: 0,
        routed: Routed::Query(Shard::Direct(1)),
    }) {
        RouteAction::Done(context) => assert!(matches!(context.shard(), Shard::Direct(1))),
        other => panic!("unexpected action {:?}", other),
    }
}

#[test]
fn a_command_that_is_no_query_is_refused() {
    let tuple = TupleData { columns: vec![] };
    let parse = Parse::named(String::new(), "BEGIN".to_string());
    let mut routing = Routing::new(&tuple, &parse);
    assert!(matches!(
        routing.next(RouteEvent::Routed { pending: 0, routed: Routed::Other }),
        RouteAction::Failed(Error::IncorrectCommand)
    ));
}

#[test]
fn statement_names_differ() {
    let mut counter: usize = 1;
    let one = Statement::new("SELECT 1".to_string(), &mut counter);
    let two = Statement::new("SELECT 1".to_string(), &mut counter);
    assert_ne!(one.parse().name, two.parse().name);
    assert_eq!(one.parse().query, two.parse().query);
}

#[test]
fn writes_to_every_shard_are_split() {
    let first = OmniOwnership::new(0, 2);
    let second = OmniOwnership::new(1, 2);
    assert_eq!(targets(&Shard::All, 4, &first), vec![0, 2]);
    assert_eq!(targets(&Shard::All, 4, &second), vec![1, 3]);
    assert_eq!(targets(&Shard::All, 2, &OmniOwnership::test()), vec![0, 1]);
    assert_eq!(targets(&Shard::Direct(3), 4, &first), vec![3]);
}

#[test]
fn a_key_that_cannot_be_looked_up_is_not_routed() {
    let tuple = TupleData {
        columns: vec![text_col("1")],
    };
    let parse = Parse::named("s".to_string(), "INSERT".to_string());
    let mut routing = Routing::new(&tuple, &parse);
    routing.next(RouteEvent::Routed { pending: 1, routed: Routed::Other });
    match routing.next(RouteEvent::LookupFailed("no such tenant".to_string())) {
        RouteAction::Failed(Error::Lookup(message)) => assert_eq!(message, "no such tenant"),
        other => panic!("unexpected action {:?}", other),
    }
}
