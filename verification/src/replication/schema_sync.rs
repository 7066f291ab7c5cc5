//! Syncs the schema of one database to another, one phase at a time.

use std::sync::Arc;
use vstd::prelude::*;

use super::error::{BackendError, Error};
use crate::cluster::{Cluster, Databases};
use crate::schema::dump::PgDump;
use crate::schema::pg_dump::{Statement, SyncState};
use crate::text::str_eq;

verus! {

/// The phase of a schema sync that was asked for.
#[derive(Debug, Clone, Copy, PartialEq, Eq, Structural)]
pub enum SchemaSyncPhase {
    Pre,
    Post,
    Cutover,
}

/// The phase that the options of the command line ask for.
pub fn phase(data_sync_complete: bool, cutover: bool) -> (out: SchemaSyncPhase)
    ensures
        out == if data_sync_complete {
            SchemaSyncPhase::Post
        } else if cutover {
            SchemaSyncPhase::Cutover
        } else {
            SchemaSyncPhase::Pre
        },
{
    if data_sync_complete {
        SchemaSyncPhase::Post
    } else if cutover {
        SchemaSyncPhase::Cutover
    } else {
        SchemaSyncPhase::Pre
    }
}

impl SchemaSyncPhase {
    /// The statements of the dump that belong to the phase.
    pub fn sync_state(&self) -> (out: SyncState)
        ensures
            out == match *self {
                SchemaSyncPhase::Pre => SyncState::PreData,
                SchemaSyncPhase::Post => SyncState::PostData,
                SchemaSyncPhase::Cutover => SyncState::Cutover,
            },
    {
        match self {
            SchemaSyncPhase::Pre => SyncState::PreData,
            SchemaSyncPhase::Post => SyncState::PostData,
            SchemaSyncPhase::Cutover => SyncState::Cutover,
        }
    }
}

/// A schema sync from one cluster to another.
#[derive(Debug)]
pub struct SchemaSync {
    source: Arc<Cluster>,
    destination: Arc<Cluster>,
    publication: String,
    /// The destination belongs to the caller: it is not looked up again.
    fixed_destination: bool,
    /// There is no publication: nothing is copied.
    schema_only: bool,
}

/// The contents of a [`SchemaSync`].
pub struct SchemaSyncView {
    pub source: Arc<Cluster>,
    pub destination: Arc<Cluster>,
    pub publication: Seq<char>,
    pub fixed_destination: bool,
    pub schema_only: bool,
}

impl View for SchemaSync {
    type V = SchemaSyncView;

    closed spec fn view(&self) -> SchemaSyncView {
        SchemaSyncView {
            source: self.source,
            destination: self.destination,
            publication: self.publication@,
            fixed_destination: self.fixed_destination,
            schema_only: self.schema_only,
        }
    }
}

/// Whether an error says that no cluster is configured under a name.
pub open spec fn no_database(e: Error, name: Seq<char>) -> bool {
    e matches Error::Backend(BackendError::NoDatabase(n)) && n@ == name
}

impl SchemaSync {
    /// A sync between two configured clusters.
    pub fn new(
        databases: &Databases,
        source: &String,
        destination: &String,
        publication: &str,
    ) -> (out: Result<Self, Error>)
        ensures
            match out {
                Ok(s) => databases@.contains_key(source@) && databases@.contains_key(destination@)
                    && s@ == (SchemaSyncView {
                    source: databases@[source@],
                    destination: databases@[destination@],
                    publication: publication@,
                    fixed_destination: false,
                    schema_only: false,
                }),
                Err(e) => if databases@.contains_key(source@) {
                    !databases@.contains_key(destination@) && no_database(e, destination@)
                } else {
                    no_database(e, source@)
                },
            },
    {
        let from: Arc<Cluster> = match databases.schema_owner(source) {
            Ok(c) => c,
            Err(e) => {
                return Err(e);
            },
        };
        let to: Arc<Cluster> = match databases.schema_owner(destination) {
            Ok(c) => c,
            Err(e) => {
                return Err(e);
            },
        };
        Ok(
            SchemaSync {
                source: from,
                destination: to,
                publication: publication.to_owned(),
                fixed_destination: false,
                schema_only: false,
            },
        )
    }

    /// A sync into a cluster of the caller, such as a shard that is being added.
    pub fn for_provisioning(
        databases: &Databases,
        source: &String,
        destination: Arc<Cluster>,
        publication: &str,
        schema_only: bool,
    ) -> (out: Result<Self, Error>)
        ensures
            match out {
                Ok(s) => databases@.contains_key(source@) && s@ == (SchemaSyncView {
                    source: databases@[source@],
                    destination,
                    publication: publication@,
                    fixed_destination: true,
                    schema_only,
                }),
                Err(e) => !databases@.contains_key(source@) && no_database(e, source@),
            },
    {
        match databases.schema_owner(source) {
            Ok(c) => Ok(
                SchemaSync {
                    source: c,
                    destination,
                    publication: publication.to_owned(),
                    fixed_destination: true,
                    schema_only,
                },
            ),
            Err(e) => Err(e),
        }
    }

    /// Looks both ends up again, after the configuration was loaded anew. The
    /// caller's own destination stays.
    pub fn refresh(&mut self, databases: &Databases) -> (out: Result<(), Error>)
        ensures
            ({
                let s = old(self)@;
                let from = s.source.database@;
                let to = s.destination.database@;
                match out {
                    Ok(_) => {
                        &&& databases@.contains_key(from)
                        &&& s.fixed_destination || databases@.contains_key(to)
                        &&& final(self)@ == (SchemaSyncView {
                            source: databases@[from],
                            destination: if s.fixed_destination {
                                s.destination
                            } else {
                                databases@[to]
                            },
                            ..s
                        })
                    },
                    Err(e) => if databases@.contains_key(from) {
                        &&& !s.fixed_destination && !databases@.contains_key(to)
                        &&& no_database(e, to)
                        &&& final(self)@ == (SchemaSyncView { source: databases@[from], ..s })
                    } else {
                        no_database(e, from) && final(self)@ == s
                    },
                }
            }),
    {
        match databases.schema_owner(&self.source.database) {
            Ok(c) => {
                self.source = c;
            },
            Err(e) => {
                return Err(e);
            },
        }
        if !self.fixed_destination {
            match databases.schema_owner(&self.destination.database) {
                Ok(c) => {
                    self.destination = c;
                },
                Err(e) => {
                    return Err(e);
                },
            }
        }
        Ok(())
    }

    /// The dump of the source's schema.
    pub fn dump(&self) -> (out: PgDump)
        ensures
            out.spec_source() == self@.source,
            out.verifies() == !self@.schema_only,
            out.spec_publication() == if self@.schema_only {
                Seq::<char>::empty()
            } else {
                self@.publication
            },
    {
        if self.schema_only {
            PgDump::schema_only(&self.source)
        } else {
            PgDump::new(&self.source, self.publication.as_str())
        }
    }

    /// The number of shards to restore to.
    pub fn shards(&self) -> (out: usize)
        ensures
            out == self@.destination.shards@.len(),
    {
        self.destination.shards.len()
    }
}

/// What a statement did on a shard.
#[derive(Debug)]
pub enum StatementOutcome {
    Applied,
    Skipped,
    Failed(String),
}

/// Whether an SQLSTATE says that what a statement makes is there: an invalid table
/// definition, a duplicate object, a wrong object type, a duplicate table.
pub open spec fn exists_code(code: Seq<char>) -> bool {
    code == "42P16"@ || code == "42710"@ || code == "42809"@ || code == "42P07"@
}

/// Whether the failure of a statement is passed over.
pub open spec fn tolerated(statement: Statement, e: BackendError) -> bool {
    e matches BackendError::ExecutionError(response) && statement.skip_if_exists && exists_code(
        response.code@,
    )
}

/// What running a statement on a shard came to. What is there already is passed
/// over where the statement allows for it. Any other error of the statement fails
/// the restore, unless errors are ignored; an error of the connection always does.
pub fn execute(
    result: Result<(), BackendError>,
    statement: &Statement,
    ignore_errors: bool,
) -> (out: Result<StatementOutcome, Error>)
    ensures
        match result {
            Ok(_) => out matches Ok(StatementOutcome::Applied),
            Err(e) => if tolerated(*statement, e) {
                out matches Ok(StatementOutcome::Skipped)
            } else if ignore_errors && e is ExecutionError {
                out matches Ok(StatementOutcome::Failed(text)) && text@ == e.text()
            } else {
                out matches Err(Error::Backend(f)) && f == e
            },
        },
{
    match result {
        Ok(_) => Ok(StatementOutcome::Applied),
        Err(e) => {
            match &e {
                BackendError::ExecutionError(response) => {
                    let code: &str = response.code.as_str();
                    if statement.skip_if_exists && (str_eq(code, "42P16") || str_eq(code, "42710")
                        || str_eq(code, "42809") || str_eq(code, "42P07")) {
                        return Ok(StatementOutcome::Skipped);
                    }
                    if ignore_errors {
                        return Ok(StatementOutcome::Failed(e.to_text()));
                    }
                },
                _ => {},
            }
            Err(Error::Backend(e))
        },
    }
}

/// What a statement may find is passed over only where the statement allows for
/// it.
pub proof fn law_strict_statements_are_not_skipped(statement: Statement, e: BackendError)
    requires
        !statement.skip_if_exists,
    ensures
        !tolerated(statement, e),
{
}

} // verus!
