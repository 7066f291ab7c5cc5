//! Dumps the schema of a source cluster.

use std::sync::Arc;
use vstd::prelude::*;
use vstd::utf8::{decode_utf8, valid_utf8};

use super::clean::{clean, without_markers};
use super::error::{SchemaSyncError, SchemaSyncErrorView};
use crate::cluster::{share, Address, Cluster};
use crate::replication::table::{PublicationTable, PublicationTableView};
use crate::replication::tuple::read_utf8;
use crate::text::{decimal, decimal_string, texts};

verus! {

/// A dump of one source cluster's schema, to be made.
#[derive(Debug)]
pub struct PgDump {
    source: Arc<Cluster>,
    publication: String,
    /// Whether the tables of the publication are looked at first.
    verify_publication: bool,
}

/// A program to run.
#[derive(Debug)]
pub struct CommandLine {
    pub program: String,
    pub args: Vec<String>,
    pub envs: Vec<(String, String)>,
}

/// The contents of the variables of a [`CommandLine`].
pub open spec fn env_views(envs: Seq<(String, String)>) -> Seq<(Seq<char>, Seq<char>)> {
    envs.map_values(|e: (String, String)| (e.0@, e.1@))
}

/// The arguments of `pg_dump` for a database.
pub open spec fn dump_args(addr: Address) -> Seq<Seq<char>> {
    seq![
        "--schema-only"@,
        "-h"@,
        addr.host@,
        "-p"@,
        decimal(addr.port as nat),
        "-U"@,
        addr.user@,
        "-d"@,
        addr.database_name@,
    ]
}

/// The variables of `pg_dump` for a database: the secret, and TLS where the
/// identity comes from a cloud provider.
pub open spec fn dump_envs(addr: Address, secret: Seq<char>) -> Seq<(Seq<char>, Seq<char>)> {
    if addr.server_auth.external_identity() {
        seq![("PGPASSWORD"@, secret), ("PGSSLMODE"@, "require"@)]
    } else {
        seq![("PGPASSWORD"@, secret)]
    }
}

impl CommandLine {
    /// The value of a variable, where it is set.
    pub fn env(&self, name: &str) -> (out: Option<&String>)
        ensures
            match out {
                Some(v) => exists|i: int|
                    0 <= i < self.envs@.len() && (#[trigger] self.envs@[i]).0@ == name@
                        && self.envs@[i].1 == *v && forall|j: int|
                        0 <= j < i ==> (#[trigger] self.envs@[j]).0@ != name@,
                None => forall|j: int|
                    0 <= j < self.envs@.len() ==> (#[trigger] self.envs@[j]).0@ != name@,
            },
    {
        let mut i: usize = 0;
        while i < self.envs.len()
            invariant
                i <= self.envs.len(),
                forall|j: int| 0 <= j < i ==> (#[trigger] self.envs@[j]).0@ != name@,
            decreases self.envs.len() - i,
        {
            if crate::text::str_eq(self.envs[i].0.as_str(), name) {
                return Some(&self.envs[i].1);
            }
            i += 1;
        }
        None
    }
}

/// The command that dumps the schema of a database.
pub fn build_pg_dump_command(pg_dump_path: &str, addr: &Address, auth_secret: &str) -> (out:
    CommandLine)
    ensures
        out.program@ == pg_dump_path@,
        texts(out.args@) == dump_args(*addr),
        env_views(out.envs@) == dump_envs(*addr, auth_secret@),
{
    let mut args: Vec<String> = Vec::new();
    args.push("--schema-only".to_owned());
    args.push("-h".to_owned());
    args.push(addr.host.clone());
    args.push("-p".to_owned());
    args.push(decimal_string(addr.port as u128));
    args.push("-U".to_owned());
    args.push(addr.user.clone());
    args.push("-d".to_owned());
    args.push(addr.database_name.clone());
    let mut envs: Vec<(String, String)> = Vec::new();
    envs.push(("PGPASSWORD".to_owned(), auth_secret.to_owned()));
    if addr.server_auth.is_external_identity() {
        envs.push(("PGSSLMODE".to_owned(), "require".to_owned()));
    }
    assert(texts(args@) =~= dump_args(*addr));
    assert(env_views(envs@) =~= dump_envs(*addr, auth_secret@));
    CommandLine { program: pg_dump_path.to_owned(), args, envs }
}

/// Each table of a list.
pub open spec fn table_views(tables: Seq<PublicationTable>) -> Seq<PublicationTableView> {
    tables.map_values(|t: PublicationTable| t@)
}

/// The first shard whose publication has tables.
pub open spec fn first_with_tables(loads: Seq<Vec<PublicationTable>>, i: int) -> bool {
    &&& 0 <= i < loads.len()
    &&& loads[i]@.len() > 0
    &&& forall|j: int| 0 <= j < i ==> (#[trigger] loads[j])@.len() == 0
}

/// The shards behind the first with tables whose tables are not the same.
pub open spec fn differing(loads: Seq<Vec<PublicationTable>>, first: int, n: int) -> Seq<usize>
    decreases n - first,
{
    if n <= first + 1 {
        Seq::empty()
    } else if table_views(loads[n - 1]@) != table_views(loads[first]@) {
        differing(loads, first, n - 1).push((n - 1) as usize)
    } else {
        differing(loads, first, n - 1)
    }
}

fn same_tables(a: &Vec<PublicationTable>, b: &Vec<PublicationTable>) -> (same: bool)
    ensures
        same == (table_views(a@) == table_views(b@)),
{
    let ghost x = table_views(a@);
    let ghost y = table_views(b@);
    if a.len() != b.len() {
        assert(x.len() != y.len());
        return false;
    }
    let mut i: usize = 0;
    while i < a.len()
        invariant
            i <= a.len(),
            a.len() == b.len(),
            x == table_views(a@),
            y == table_views(b@),
            forall|j: int| 0 <= j < i ==> x[j] == y[j],
        decreases a.len() - i,
    {
        if !a[i].same(&b[i]) {
            assert(x[i as int] != y[i as int]);
            return false;
        }
        i += 1;
    }
    assert(x =~= y);
    true
}

impl PgDump {
    pub closed spec fn spec_source(self) -> Arc<Cluster> {
        self.source
    }

    pub closed spec fn spec_publication(self) -> Seq<char> {
        self.publication@
    }

    pub closed spec fn verifies(self) -> bool {
        self.verify_publication
    }

    /// A dump for a publication, whose tables are looked at first.
    pub fn new(source: &Arc<Cluster>, publication: &str) -> (out: Self)
        ensures
            out.spec_source() == *source,
            out.spec_publication() == publication@,
            out.verifies(),
    {
        PgDump {
            source: share(source),
            publication: publication.to_owned(),
            verify_publication: true,
        }
    }

    /// A dump without a publication. For databases with no tables on every shard:
    /// there is nothing to copy or replicate, only a schema to make.
    pub fn schema_only(source: &Arc<Cluster>) -> (out: Self)
        ensures
            out.spec_source() == *source,
            out.spec_publication() == Seq::<char>::empty(),
            !out.verifies(),
    {
        let publication: String = String::new();
        assert(publication@ =~= Seq::<char>::empty());
        PgDump { source: share(source), publication, verify_publication: false }
    }

    /// The database to dump: the first of the first shard. All shards are taken to
    /// have the same schema.
    pub fn address(&self) -> (out: Result<&Address, SchemaSyncError>)
        ensures
            ({
                let shards = self.spec_source().shards@;
                match out {
                    Ok(addr) => shards.len() > 0 && shards[0].pools@.len() > 0 && *addr
                        == shards[0].pools@[0].addr,
                    Err(e) => e@ is NoDatabases && !(shards.len() > 0 && shards[0].pools@.len()
                        > 0),
                }
            }),
    {
        if self.source.shards.len() == 0 {
            return Err(SchemaSyncError::NoDatabases);
        }
        if self.source.shards[0].pools.len() == 0 {
            return Err(SchemaSyncError::NoDatabases);
        }
        Ok(&self.source.shards[0].pools[0].addr)
    }

    /// Whether the publication's tables have to be loaded from every shard first.
    pub fn loads_tables(&self) -> (b: bool)
        ensures
            b == self.verifies(),
    {
        self.verify_publication
    }

    /// Compares the publication's tables of all shards. There must be some. The
    /// shards that differ from the first with tables are told; that is no error.
    pub fn check_tables(&self, loads: &Vec<Vec<PublicationTable>>) -> (out: Result<
        Vec<usize>,
        SchemaSyncError,
    >)
        ensures
            match out {
                Ok(differ) => if self.verifies() {
                    exists|first: int| #[trigger]
                        first_with_tables(loads@, first) && differ@ == differing(
                            loads@,
                            first,
                            loads@.len() as int,
                        )
                } else {
                    differ@.len() == 0
                },
                Err(e) => self.verifies() && e@ == SchemaSyncErrorView::PublicationNoTables(
                    self.spec_publication(),
                ) && forall|i: int| 0 <= i < loads@.len() ==> (#[trigger] loads@[i])@.len() == 0,
            },
    {
        let mut differ: Vec<usize> = Vec::new();
        if !self.verify_publication {
            return Ok(differ);
        }
        let mut first: usize = 0;
        while first < loads.len() && loads[first].len() == 0
            invariant
                first <= loads.len(),
                forall|j: int| 0 <= j < first ==> (#[trigger] loads@[j])@.len() == 0,
            decreases loads.len() - first,
        {
            first += 1;
        }
        if first == loads.len() {
            return Err(SchemaSyncError::PublicationNoTables(self.publication.clone()));
        }
        let mut i: usize = first + 1;
        assert(differ@ =~= differing(loads@, first as int, i as int));
        while i < loads.len()
            invariant
                first < i <= loads.len(),
                differ@ == differing(loads@, first as int, i as int),
            decreases loads.len() - i,
        {
            if !same_tables(&loads[i], &loads[first]) {
                differ.push(i);
            }
            i += 1;
        }
        assert(first_with_tables(loads@, first as int));
        Ok(differ)
    }

    /// The command to run, with the first of the server's secrets.
    pub fn command(&self, pg_dump_path: Option<&str>, addr: &Address, secrets: &Vec<String>) -> (
        out: Result<CommandLine, SchemaSyncError>)
        ensures
            match out {
                Ok(command) => {
                    &&& secrets@.len() > 0
                    &&& command.program@ == match pg_dump_path {
                        Some(path) => path@,
                        None => "pg_dump"@,
                    }
                    &&& texts(command.args@) == dump_args(*addr)
                    &&& env_views(command.envs@) == dump_envs(*addr, secrets@[0]@)
                },
                Err(e) => secrets@.len() == 0 && e@ == SchemaSyncErrorView::PgDump(
                    "server has no configured passwords"@,
                ),
            },
    {
        if secrets.len() == 0 {
            return Err(SchemaSyncError::PgDump("server has no configured passwords".to_owned()));
        }
        let path: &str = match pg_dump_path {
            Some(path) => path,
            None => "pg_dump",
        };
        Ok(build_pg_dump_command(path, addr, secrets[0].as_str()))
    }

    /// What the command printed, to be parsed: without the lines that only `psql`
    /// understands. Where it failed, what it complained about.
    pub fn output(success: bool, stdout: &Vec<u8>, stderr: &Vec<u8>) -> (out: Result<
        String,
        SchemaSyncError,
    >)
        ensures
            match out {
                Ok(cleaned) => success && valid_utf8(stdout@) && cleaned@ == without_markers(
                    decode_utf8(stdout@),
                ),
                Err(e) => if success {
                    !valid_utf8(stdout@) && e@ is Utf8
                } else if valid_utf8(stderr@) {
                    e@ == SchemaSyncErrorView::PgDump(decode_utf8(stderr@))
                } else {
                    e@ is Utf8
                },
            },
    {
        if !success {
            return match read_utf8(stderr.as_slice()) {
                Some(text) => {
                    proof {
                        vstd::utf8::encode_utf8_decode_utf8(text@);
                    }
                    Err(SchemaSyncError::PgDump(text.to_owned()))
                },
                None => Err(SchemaSyncError::Utf8),
            };
        }
        match read_utf8(stdout.as_slice()) {
            Some(text) => {
                proof {
                    vstd::utf8::encode_utf8_decode_utf8(text@);
                }
                Ok(clean(text))
            },
            None => Err(SchemaSyncError::Utf8),
        }
    }
}

} // verus!
