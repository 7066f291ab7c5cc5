use std::sync::Arc;

use pgdog::cluster::{Address, Cluster, Pool, Role, ServerAuth, Shard};
use pgdog::replication::table::PublicationTable;
use pgdog::schema::clean::clean;
use pgdog::schema::dump::{build_pg_dump_command, PgDump};
use pgdog::schema::error::SchemaSyncError;
use pgdog::sharded_tables::{LookupStore, ShardedTables};

fn address() -> Address {
    Address {
        host: "127.0.0.1".to_string(),
        port: 5432,
        user: "pgdog".to_string(),
        database_name: "pgdog".to_string(),
        server_auth: ServerAuth::Password,
    }
}

fn cluster() -> Arc<Cluster> {
    Arc::new(Cluster {
        name: "pgdog".to_string(),
        database: "pgdog".to_string(),
        shards: vec![Arc::new(Shard {
            pools: vec![Pool {
                addr: address(),
                role: Role::Primary,
                resharding_only: false,
            }],
        })],
        sharded_tables: ShardedTables::default(&mut LookupStore::new()),
        two_pc_enabled: false,
    })
}

#[test]
fn test_build_pg_dump_command_sets_password_env() {
    let addr = address();
    let command = build_pg_dump_command("pg_dump", &addr, "secret");

    assert_eq!(command.env("PGPASSWORD").map(String::as_str), Some("secret"));
    assert_eq!(command.env("PGSSLMODE"), None);
}

#[test]
fn test_build_pg_dump_command_sets_tls_for_rds_iam() {
    let mut addr = address();
    addr.server_auth = ServerAuth::RdsIam;
    let command = build_pg_dump_command("pg_dump", &addr, "token");

    assert_eq!(command.env("PGSSLMODE").map(String::as_str), Some("require"));
}

#[test]
fn test_build_pg_dump_command_sets_tls_for_azure_workload_identity() {
    let mut addr = address();
    addr.server_auth = ServerAuth::AzureWorkloadIdentity;
    let command = build_pg_dump_command("pg_dump", &addr, "token");

    assert_eq!(command.env("PGSSLMODE").map(String::as_str), Some("require"));
}

#[test]
fn the_dump_command_names_the_server() {
    let command = build_pg_dump_command("/usr/bin/pg_dump", &address(), "secret");

    assert_eq!(command.program, "/usr/bin/pg_dump");
    assert_eq!(
        command.args,
        vec!["--schema-only", "-h", "127.0.0.1", "-p", "5432", "-U", "pgdog", "-d", "pgdog"]
    );
}

#[test]
fn test_specific_dump() {
    let dump = r#"
-- PostgreSQL database dump
--

\restrict nu6jB5ogH2xGMn2dB3dMyMbSZ2PsVDqB2IaWK6zZVjngeba0UrnmxMy6s63SwzR

-- Dumped from database version 16.6
-- Dumped by pg_dump version 16.10 (Ubuntu 16.10-0ubuntu0.24.04.1)

SET statement_timeout = 0;
SET lock_timeout = 0;
SET idle_in_transaction_session_timeout = 0;
SET client_encoding = 'UTF8';
SET standard_conforming_strings = on;
SELECT pg_catalog.set_config('search_path', '', false);
SET check_function_bodies = false;
SET xmloption = content;
SET client_min_messages = warning;
SET row_security = off;

SET default_tablespace = '';

SET default_table_access_method = heap;

--
-- Name: users; Type: TABLE; Schema: public; Owner: pgdog-4
--

CREATE TABLE public.users (
    id bigint NOT NULL,
    email character varying NOT NULL,
    created_at timestamp with time zone DEFAULT now() NOT NULL
);


ALTER TABLE public.users OWNER TO "pgdog-4";

--
-- Name: users users_pkey; Type: CONSTRAINT; Schema: public; Owner: pgdog-4
--

ALTER TABLE ONLY public.users
    ADD CONSTRAINT users_pkey PRIMARY KEY (id);


--
-- PostgreSQL database dump complete
--

\unrestrict nu6jB5ogH2xGMn2dB3dMyMbSZ2PsVDqB2IaWK6zZVjngeba0UrnmxMy6s63SwzR
"#;
    let cleaned = clean(dump);

    // Everything but the two lines that no parser reads.
    let kept: String = dump
        .split_inclusive('\n')
        .filter(|line| !line.starts_with('\\'))
        .collect();
    assert_eq!(cleaned, kept);
    assert!(!cleaned.contains("restrict"));
    assert!(cleaned.contains("CREATE TABLE public.users ("));
}

#[test]
fn cleaning_once_is_enough() {
    let cleaned = clean("SELECT 1;\n\\restrict abc\nSELECT 2;\n\\unrestrict abc");
    assert_eq!(cleaned, "SELECT 1;\nSELECT 2;\n");
    assert_eq!(clean(&cleaned), cleaned);
    assert_eq!(clean("SELECT '\\restrict';"), "SELECT '\\restrict';");
}

#[test]
fn a_failed_dump_hands_on_what_it_said() {
    match PgDump::output(false, &b"partial".to_vec(), &b"no such database".to_vec()) {
        Err(SchemaSyncError::PgDump(e)) => assert_eq!(e, "no such database"),
        other => panic!("unexpected result {:?}", other),
    }
    assert!(matches!(
        PgDump::output(true, &vec![0xff], &vec![]),
        Err(SchemaSyncError::Utf8)
    ));
    assert_eq!(
        PgDump::output(true, &b"\\restrict a\nSELECT 1;".to_vec(), &vec![]).unwrap(),
        "SELECT 1;"
    );
}

#[test]
fn a_publication_without_tables_is_not_dumped() {
    let dump = PgDump::new(&cluster(), "my_pub");
    assert!(dump.loads_tables());
    assert!(dump.address().is_ok());
    match dump.check_tables(&vec![vec![]]) {
        Err(SchemaSyncError::PublicationNoTables(name)) => assert_eq!(name, "my_pub"),
        other => panic!("unexpected result {:?}", other),
    }
    assert!(dump.check_tables(&vec![vec![PublicationTable::default()]]).is_ok());
    assert!(!PgDump::schema_only(&cluster()).loads_tables());
}

#[test]
fn errors_say_what_went_wrong() {
    assert_eq!(
        SchemaSyncError::PublicationNoTables("p".to_string()).to_text(),
        "publication \"p\" has no tables"
    );
    assert_eq!(
        SchemaSyncError::PgDump("boom".to_string()).to_text(),
        "pg_dump: boom"
    );
}

#[test]
fn a_cluster_without_databases_is_not_dumped() {
    let empty = Arc::new(Cluster {
        name: "pgdog".to_string(),
        database: "pgdog".to_string(),
        shards: vec![],
        sharded_tables: ShardedTables::default(&mut LookupStore::new()),
        two_pc_enabled: false,
    });
    let dump = PgDump::new(&empty, "my_pub");
    assert!(matches!(dump.address(), Err(SchemaSyncError::NoDatabases)));
    let shardless = Arc::new(Cluster {
        name: "pgdog".to_string(),
        database: "pgdog".to_string(),
        shards: vec![Arc::new(Shard { pools: vec![] })],
        sharded_tables: ShardedTables::default(&mut LookupStore::new()),
        two_pc_enabled: false,
    });
    let dump = PgDump::new(&shardless, "my_pub");
    assert!(matches!(dump.address(), Err(SchemaSyncError::NoDatabases)));
}

#[test]
fn a_dump_needs_a_secret() {
    let source = cluster();
    let dump = PgDump::new(&source, "my_pub");
    let addr = dump.address().unwrap();
    let secrets = vec!["first".to_string(), "second".to_string()];
    let command = dump.command(None, addr, &secrets).unwrap();
    assert_eq!(command.program, "pg_dump");
    assert_eq!(command.env("PGPASSWORD").map(String::as_str), Some("first"));
    let command = dump.command(Some("/opt/pg_dump"), addr, &secrets).unwrap();
    assert_eq!(command.program, "/opt/pg_dump");
    match dump.command(None, addr, &vec![]) {
        Err(SchemaSyncError::PgDump(e)) => assert_eq!(e, "server has no configured passwords"),
        other => panic!("unexpected result {:?}", other),
    }
}

#[test]
fn shards_with_other_tables_are_told() {
    let table = |name: &str| PublicationTable {
        schema: "public".to_string(),
        name: name.to_string(),
        ..Default::default()
    };
    let dump = PgDump::new(&cluster(), "my_pub");
    let loads = vec![vec![], vec![table("a")], vec![table("a")], vec![table("b")], vec![]];
    assert_eq!(dump.check_tables(&loads).unwrap(), vec![3, 4]);
}
