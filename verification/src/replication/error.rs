//! What can go wrong while tables are copied and replicated, and which of it is
//! worth another try.

use vstd::prelude::*;

use super::table::PublicationTable;
use super::tuple::Oid;
use crate::config::DataType;
use crate::schema::error::SchemaSyncError;
use crate::text::{around, decimal, decimal_string, str_eq, str_le, text_le};

verus! {

/// Why a table can't be replicated.
#[derive(Debug, Clone, Copy, PartialEq, Eq, Structural)]
pub enum TableValidationErrorKind {
    NoIdentityColumns,
    ReplicaIdentityNothing,
    FullIdentityOmniNoUniqueIndex,
}

impl TableValidationErrorKind {
    /// The reason in words.
    pub open spec fn text(self) -> Seq<char> {
        match self {
            TableValidationErrorKind::NoIdentityColumns => "has no replica identity columns"@,
            TableValidationErrorKind::ReplicaIdentityNothing => "REPLICA IDENTITY NOTHING, UPDATE/DELETE carry no row identity and cannot be replicated; set it to DEFAULT, INDEX, or FULL"@,
            TableValidationErrorKind::FullIdentityOmniNoUniqueIndex => "REPLICA IDENTITY FULL on a non-sharded table requires a unique index on the destination; add a unique index on the source or destination, use REPLICA IDENTITY USING INDEX on the source, or shard the table"@,
        }
    }

    /// The reason in words.
    pub fn to_text(&self) -> (out: &'static str)
        ensures
            out@ == self.text(),
    {
        match self {
            TableValidationErrorKind::NoIdentityColumns => "has no replica identity columns",
            TableValidationErrorKind::ReplicaIdentityNothing => "REPLICA IDENTITY NOTHING, UPDATE/DELETE carry no row identity and cannot be replicated; set it to DEFAULT, INDEX, or FULL",
            TableValidationErrorKind::FullIdentityOmniNoUniqueIndex => "REPLICA IDENTITY FULL on a non-sharded table requires a unique index on the destination; add a unique index on the source or destination, use REPLICA IDENTITY USING INDEX on the source, or shard the table",
        }
    }
}

/// A table that can't be replicated, and why.
#[derive(Debug)]
pub struct TableValidationError {
    pub table_name: String,
    pub kind: TableValidationErrorKind,
}

impl TableValidationError {
    /// The failure in words.
    pub open spec fn text(self) -> Seq<char> {
        "table "@ + self.table_name@ + ": "@ + self.kind.text()
    }

    /// The failure in words.
    pub fn to_text(&self) -> (out: String)
        ensures
            out@ == self.text(),
    {
        let mut out: String = "table ".to_owned();
        out.append(self.table_name.as_str());
        out.append(": ");
        out.append(self.kind.to_text());
        out
    }

    /// A copy of the failure.
    pub fn copy(&self) -> (out: TableValidationError)
        ensures
            out == *self,
    {
        TableValidationError { table_name: self.table_name.clone(), kind: self.kind }
    }
}

/// The tables that can't be replicated.
#[derive(Debug)]
pub struct TableValidationErrors(pub Vec<TableValidationError>);

/// One indented line for each failure, under a header.
pub open spec fn validation_text(errors: Seq<TableValidationError>) -> Seq<char>
    decreases errors.len(),
{
    if errors.len() == 0 {
        "Table validation failed:"@
    } else {
        validation_text(errors.drop_last()) + "\n\t"@ + errors.last().text()
    }
}

impl TableValidationErrors {
    /// The failures in words.
    pub open spec fn text(self) -> Seq<char> {
        validation_text(self.0@)
    }

    /// The failures in words: a header, and one indented line for each.
    pub fn to_text(&self) -> (out: String)
        ensures
            out@ == self.text(),
    {
        let mut out: String = "Table validation failed:".to_owned();
        let mut i: usize = 0;
        assert(self.0@.take(0).len() == 0);
        while i < self.0.len()
            invariant
                i <= self.0.len(),
                out@ == validation_text(self.0@.take(i as int)),
            decreases self.0.len() - i,
        {
            assert(self.0@.take(i + 1).drop_last() =~= self.0@.take(i as int));
            out.append("\n\t");
            out.append(self.0[i].to_text().as_str());
            i += 1;
        }
        assert(self.0@.take(self.0@.len() as int) =~= self.0@);
        out
    }
}

/// Whether a failure is the first one of its table.
pub open spec fn first_of_table(errors: Seq<TableValidationError>, i: int) -> bool {
    &&& 0 <= i < errors.len()
    &&& forall|j: int|
        0 <= j < i ==> (#[trigger] errors[j]).table_name@ != errors[i].table_name@
}

/// Whether the list is in strict order of its table names.
pub open spec fn in_table_order(errors: Seq<TableValidationError>) -> bool {
    forall|i: int, j: int|
        0 <= i < j < errors.len() ==> text_le(
            (#[trigger] errors[i]).table_name@,
            (#[trigger] errors[j]).table_name@,
        ) && errors[i].table_name@ != errors[j].table_name@
}

/// Whether every failure of a list is the first one of its table among all.
#[verifier::opaque]
pub open spec fn only_first(
    out: Seq<TableValidationError>,
    errors: Seq<TableValidationError>,
) -> bool {
    forall|k: int|
        0 <= k < out.len() ==> exists|i: int|
            #![trigger first_of_table(errors, i)]
            first_of_table(errors, i) && errors[i] == #[trigger] out[k]
}

/// Whether every table with a failure is in a list.
#[verifier::opaque]
pub open spec fn every_table(
    out: Seq<TableValidationError>,
    errors: Seq<TableValidationError>,
) -> bool {
    forall|i: int|
        0 <= i < errors.len() ==> exists|k: int|
            0 <= k < out.len() && (#[trigger] out[k]).table_name@ == (
            #[trigger] errors[i]).table_name@
}

/// What is reported of some failures: the first one of each table, in order of
/// the tables' names.
pub open spec fn reports(
    out: Seq<TableValidationError>,
    errors: Seq<TableValidationError>,
) -> bool {
    in_table_order(out) && only_first(out, errors) && every_table(out, errors)
}

proof fn lemma_first_kept(errors: Seq<TableValidationError>, n: int, i: int)
    requires
        0 <= n < errors.len(),
        first_of_table(errors.take(n), i),
    ensures
        first_of_table(errors.take(n + 1), i),
        errors.take(n + 1)[i] == errors.take(n)[i],
{
    assert forall|j: int| 0 <= j < i implies (#[trigger] errors.take(n + 1)[j]).table_name@
        != errors.take(n + 1)[i].table_name@ by {
        assert(errors.take(n)[j].table_name@ != errors.take(n)[i].table_name@);
    }
}

/// A failure of a table that is in the list changes nothing.
proof fn lemma_reports_known(
    out: Seq<TableValidationError>,
    errors: Seq<TableValidationError>,
    n: int,
    at: int,
)
    requires
        0 <= n < errors.len(),
        reports(out, errors.take(n)),
        0 <= at < out.len(),
        out[at].table_name@ == errors[n].table_name@,
    ensures
        reports(out, errors.take(n + 1)),
{
    let before = errors.take(n);
    let after = errors.take(n + 1);
    assert(only_first(out, after)) by {
        reveal(only_first);
        assert forall|k: int| 0 <= k < out.len() implies exists|i: int|
            #![trigger first_of_table(after, i)]
            first_of_table(after, i) && after[i] == #[trigger] out[k] by {
            let i = choose|i: int|
                #![trigger first_of_table(before, i)]
                first_of_table(before, i) && before[i] == out[k];
            lemma_first_kept(errors, n, i);
        }
    }
    assert(every_table(out, after)) by {
        reveal(every_table);
        assert forall|i: int| 0 <= i < after.len() implies exists|k: int|
            0 <= k < out.len() && (#[trigger] out[k]).table_name@ == (
            #[trigger] after[i]).table_name@ by {
            if i < n {
                assert(before[i] == after[i]);
            } else {
                assert(out[at].table_name@ == after[i].table_name@);
            }
        }
    }
}

/// Where the list is in order and a name is not in it, every table from the first
/// larger one on is larger.
proof fn lemma_larger(out: Seq<TableValidationError>, name: Seq<char>, at: int, k: int)
    requires
        in_table_order(out),
        0 <= at <= k < out.len(),
        !text_le(out[at].table_name@, name),
    ensures
        text_le(name, out[k].table_name@),
        out[k].table_name@ != name,
{
    crate::text::lemma_text_order();
    let leq = crate::text::text_order();
    let first = out[at].table_name@;
    let other = out[k].table_name@;
    assert(leq(first, name) || leq(name, first));
    assert(leq(name, name));
    if k > at {
        assert(leq(first, other));
        assert(leq(name, first) && leq(first, other));
        assert(leq(name, other));
    }
}

proof fn lemma_order_grown(out: Seq<TableValidationError>, new: TableValidationError, at: int)
    requires
        in_table_order(out),
        0 <= at <= out.len(),
        forall|k: int|
            0 <= k < at ==> text_le((#[trigger] out[k]).table_name@, new.table_name@)
                && out[k].table_name@ != new.table_name@,
        at < out.len() ==> !text_le(out[at].table_name@, new.table_name@),
    ensures
        in_table_order(out.insert(at, new)),
{
    let grown = out.insert(at, new);
    assert forall|i: int, j: int| 0 <= i < j < grown.len() implies text_le(
        (#[trigger] grown[i]).table_name@,
        (#[trigger] grown[j]).table_name@,
    ) && grown[i].table_name@ != grown[j].table_name@ by {
        if j == at {
            assert(grown[i] == out[i]);
        } else if i == at {
            assert(grown[j] == out[j - 1]);
            lemma_larger(out, new.table_name@, at, j - 1);
        } else {
            let a = if i < at {
                i
            } else {
                i - 1
            };
            let b = if j < at {
                j
            } else {
                j - 1
            };
            assert(grown[i] == out[a] && grown[j] == out[b]);
        }
    }
}

/// A failure of a table that is not in the list is put where it belongs.
proof fn lemma_reports_grown(
    out: Seq<TableValidationError>,
    errors: Seq<TableValidationError>,
    n: int,
    at: int,
)
    requires
        0 <= n < errors.len(),
        reports(out, errors.take(n)),
        0 <= at <= out.len(),
        forall|k: int|
            0 <= k < at ==> text_le((#[trigger] out[k]).table_name@, errors[n].table_name@)
                && out[k].table_name@ != errors[n].table_name@,
        at < out.len() ==> !text_le(out[at].table_name@, errors[n].table_name@),
    ensures
        reports(out.insert(at, errors[n]), errors.take(n + 1)),
{
    let before = errors.take(n);
    let after = errors.take(n + 1);
    let name = errors[n].table_name@;
    let grown = out.insert(at, errors[n]);
    lemma_order_grown(out, errors[n], at);
    assert(first_of_table(after, n)) by {
        reveal(every_table);
        assert forall|j: int| 0 <= j < n implies (#[trigger] after[j]).table_name@
            != after[n].table_name@ by {
            assert(before[j] == after[j]);
            let k = choose|k: int|
                0 <= k < out.len() && (#[trigger] out[k]).table_name@ == before[j].table_name@;
            if k >= at {
                lemma_larger(out, name, at, k);
            }
        }
    }
    assert(only_first(grown, after)) by {
        reveal(only_first);
        assert forall|k: int| 0 <= k < grown.len() implies exists|i: int|
            #![trigger first_of_table(after, i)]
            first_of_table(after, i) && after[i] == #[trigger] grown[k] by {
            if k == at {
                assert(after[n] == grown[k]);
            } else {
                let m = if k < at {
                    k
                } else {
                    k - 1
                };
                assert(grown[k] == out[m]);
                let i = choose|i: int|
                    #![trigger first_of_table(before, i)]
                    first_of_table(before, i) && before[i] == out[m];
                lemma_first_kept(errors, n, i);
            }
        }
    }
    assert(every_table(grown, after)) by {
        reveal(every_table);
        assert forall|i: int| 0 <= i < after.len() implies exists|k: int|
            0 <= k < grown.len() && (#[trigger] grown[k]).table_name@ == (
            #[trigger] after[i]).table_name@ by {
            if i < n {
                assert(before[i] == after[i]);
                let m = choose|m: int|
                    0 <= m < out.len() && (#[trigger] out[m]).table_name@ == before[i].table_name@;
                let k = if m < at {
                    m
                } else {
                    m + 1
                };
                assert(grown[k] == out[m]);
            } else {
                assert(grown[at].table_name@ == after[i].table_name@);
            }
        }
    }
}

/// Fails with the first failure of each table, in order of the tables' names,
/// where there is any.
pub fn ensure_validation(errors: Vec<TableValidationError>) -> (out: Result<(), Error>)
    ensures
        match out {
            Ok(_) => errors@.len() == 0,
            Err(Error::TableValidation(found)) => errors@.len() > 0 && reports(found.0@, errors@),
            Err(_) => false,
        },
{
    if errors.len() == 0 {
        return Ok(());
    }
    let mut out: Vec<TableValidationError> = Vec::new();
    let mut i: usize = 0;
    proof {
        reveal(only_first);
        reveal(every_table);
    }
    while i < errors.len()
        invariant
            i <= errors.len(),
            reports(out@, errors@.take(i as int)),
        decreases errors.len() - i,
    {
        let name: &str = errors[i].table_name.as_str();
        let mut at: usize = 0;
        let mut known: bool = false;
        while at < out.len() && !known && str_le(out[at].table_name.as_str(), name)
            invariant
                i < errors.len(),
                name@ == errors@[i as int].table_name@,
                at <= out.len(),
                known ==> at < out.len() && out@[at as int].table_name@ == name@,
                forall|k: int|
                    0 <= k < at ==> text_le((#[trigger] out@[k]).table_name@, name@)
                        && out@[k].table_name@ != name@,
            ensures
                at <= out.len(),
                known ==> at < out.len() && out@[at as int].table_name@ == name@,
                forall|k: int|
                    0 <= k < at ==> text_le((#[trigger] out@[k]).table_name@, name@)
                        && out@[k].table_name@ != name@,
                !known && at < out.len() ==> !text_le(out@[at as int].table_name@, name@),
            decreases out.len() - at + (if known { 0int } else { 1int }),
        {
            if str_eq(out[at].table_name.as_str(), name) {
                known = true;
            } else {
                at += 1;
            }
        }
        if known {
            proof {
                lemma_reports_known(out@, errors@, i as int, at as int);
            }
        } else {
            proof {
                lemma_reports_grown(out@, errors@, i as int, at as int);
            }
            out.insert(at, errors[i].copy());
        }
        i += 1;
    }
    assert(errors@.take(errors@.len() as int) =~= errors@);
    Err(Error::TableValidation(TableValidationErrors(out)))
}

/// An error that Postgres sent.
#[derive(Debug)]
pub struct ErrorResponse {
    /// The SQLSTATE.
    pub code: String,
    pub message: String,
}

impl ErrorResponse {
    /// The error in words.
    pub open spec fn text(self) -> Seq<char> {
        self.code@ + " "@ + self.message@
    }

    /// The error in words.
    pub fn to_text(&self) -> (out: String)
        ensures
            out@ == self.text(),
    {
        around(self.code.as_str(), " ", self.message.as_str())
    }

    /// Whether the server was shutting down or starting up: `admin_shutdown`,
    /// `crash_shutdown` and `cannot_connect_now`.
    pub open spec fn retryable(self) -> bool {
        self.code@ == "57P01"@ || self.code@ == "57P02"@ || self.code@ == "57P03"@
    }

    /// Whether another try may succeed.
    pub fn is_retryable(&self) -> (b: bool)
        ensures
            b == self.retryable(),
    {
        str_eq(self.code.as_str(), "57P01") || str_eq(self.code.as_str(), "57P02") || str_eq(
            self.code.as_str(),
            "57P03",
        )
    }
}

/// An error on a connection.
#[derive(Debug)]
pub enum NetError {
    Io(String),
    UnexpectedEof,
    Other(String),
}

impl NetError {
    /// The error in words.
    pub open spec fn text(self) -> Seq<char> {
        match self {
            NetError::Io(s) => s@,
            NetError::UnexpectedEof => "unexpected eof"@,
            NetError::Other(s) => s@,
        }
    }

    /// The error in words.
    pub fn to_text(&self) -> (out: String)
        ensures
            out@ == self.text(),
    {
        match self {
            NetError::Io(s) => s.clone(),
            NetError::UnexpectedEof => "unexpected eof".to_owned(),
            NetError::Other(s) => s.clone(),
        }
    }

    /// Whether another try may succeed: the connection broke.
    pub open spec fn retryable(self) -> bool {
        self is Io || self is UnexpectedEof
    }

    /// Whether another try may succeed.
    pub fn is_retryable(&self) -> (b: bool)
        ensures
            b == self.retryable(),
    {
        matches!(self, NetError::Io(_) | NetError::UnexpectedEof)
    }
}

/// An error of a connection pool.
#[derive(Debug)]
pub enum PoolError {
    NoPrimary,
    CheckoutTimeout,
    AllReplicasDown,
    NoShard(usize),
    Other(String),
}

impl PoolError {
    /// The error in words.
    pub open spec fn text(self) -> Seq<char> {
        match self {
            PoolError::NoPrimary => "no primary"@,
            PoolError::CheckoutTimeout => "checkout timeout"@,
            PoolError::AllReplicasDown => "all replicas down"@,
            PoolError::NoShard(n) => "no shard "@ + decimal(n as nat) + ""@,
            PoolError::Other(s) => s@,
        }
    }

    /// The error in words.
    pub fn to_text(&self) -> (out: String)
        ensures
            out@ == self.text(),
    {
        match self {
            PoolError::NoPrimary => "no primary".to_owned(),
            PoolError::CheckoutTimeout => "checkout timeout".to_owned(),
            PoolError::AllReplicasDown => "all replicas down".to_owned(),
            PoolError::NoShard(n) => around(
                "no shard ",
                decimal_string(*n as u128).as_str(),
                "",
            ),
            PoolError::Other(s) => s.clone(),
        }
    }

    /// Whether another try may succeed: no connection could be had for now.
    pub open spec fn retryable(self) -> bool {
        self is NoPrimary || self is CheckoutTimeout || self is AllReplicasDown
    }

    /// Whether another try may succeed.
    pub fn is_retryable(&self) -> (b: bool)
        ensures
            b == self.retryable(),
    {
        matches!(
            self,
            PoolError::NoPrimary | PoolError::CheckoutTimeout | PoolError::AllReplicasDown
        )
    }
}

/// An error of a server connection.
#[derive(Debug)]
pub enum BackendError {
    Io(String),
    ReadTimeout,
    Pool(PoolError),
    NotConnected,
    ClusterNotConnected,
    /// Postgres failed a statement.
    ExecutionError(ErrorResponse),
    /// Postgres refused or ended the connection.
    ConnectionError(ErrorResponse),
    ProtocolOutOfSync,
    /// No cluster is configured under that name.
    NoDatabase(String),
    Other(String),
}

impl BackendError {
    /// The error in words.
    pub open spec fn text(self) -> Seq<char> {
        match self {
            BackendError::Io(s) => s@,
            BackendError::ReadTimeout => "read timeout"@,
            BackendError::Pool(e) => e.text(),
            BackendError::NotConnected => "not connected"@,
            BackendError::ClusterNotConnected => "cluster not connected"@,
            BackendError::ExecutionError(e) => e.text(),
            BackendError::ConnectionError(e) => e.text(),
            BackendError::ProtocolOutOfSync => "protocol is out of sync"@,
            BackendError::NoDatabase(s) => "no such database: "@ + s@ + ""@,
            BackendError::Other(s) => s@,
        }
    }

    /// The error in words.
    pub fn to_text(&self) -> (out: String)
        ensures
            out@ == self.text(),
    {
        match self {
            BackendError::Io(s) => s.clone(),
            BackendError::ReadTimeout => "read timeout".to_owned(),
            BackendError::Pool(e) => e.to_text(),
            BackendError::NotConnected => "not connected".to_owned(),
            BackendError::ClusterNotConnected => "cluster not connected".to_owned(),
            BackendError::ExecutionError(e) => e.to_text(),
            BackendError::ConnectionError(e) => e.to_text(),
            BackendError::ProtocolOutOfSync => "protocol is out of sync".to_owned(),
            BackendError::NoDatabase(s) => around("no such database: ", s.as_str(), ""),
            BackendError::Other(s) => s.clone(),
        }
    }

    /// Whether another try may succeed. What Postgres sent is judged by its
    /// SQLSTATE.
    pub open spec fn retryable(self) -> bool {
        match self {
            BackendError::Io(_) => true,
            BackendError::ReadTimeout => true,
            BackendError::Pool(e) => e.retryable(),
            BackendError::NotConnected => true,
            BackendError::ClusterNotConnected => true,
            BackendError::ExecutionError(e) => e.retryable(),
            BackendError::ConnectionError(e) => e.retryable(),
            _ => false,
        }
    }

    /// Whether another try may succeed.
    pub fn is_retryable(&self) -> (b: bool)
        ensures
            b == self.retryable(),
    {
        match self {
            BackendError::Io(_) => true,
            BackendError::ReadTimeout => true,
            BackendError::Pool(e) => e.is_retryable(),
            BackendError::NotConnected => true,
            BackendError::ClusterNotConnected => true,
            BackendError::ExecutionError(e) => e.is_retryable(),
            BackendError::ConnectionError(e) => e.is_retryable(),
            _ => false,
        }
    }
}

/// A transaction of the two-phase commit manager.
#[derive(Debug, Clone, Copy, PartialEq, Eq, Structural)]
pub struct TwoPcTransaction(pub u64);

impl TwoPcTransaction {
    /// The transaction's name.
    pub open spec fn text(self) -> Seq<char> {
        "__pgdog_2pc_"@ + decimal(self.0 as nat)
    }

    /// The transaction's name.
    pub fn to_text(&self) -> (out: String)
        ensures
            out@ == self.text(),
    {
        let mut out: String = "__pgdog_2pc_".to_owned();
        out.append(decimal_string(self.0 as u128).as_str());
        out
    }
}

/// A change of a row that came without what it takes to apply it.
#[derive(Debug, Clone, Copy, PartialEq, Eq, Structural)]
pub enum Op {
    Insert,
    Update,
    Delete,
}

impl Op {
    /// The name of the change.
    pub open spec fn spec_name(self) -> Seq<char> {
        match self {
            Op::Insert => "INSERT"@,
            Op::Update => "UPDATE"@,
            Op::Delete => "DELETE"@,
        }
    }

    /// The name of the change.
    pub fn name(&self) -> (out: &'static str)
        ensures
            out@ == self.spec_name(),
    {
        match self {
            Op::Insert => "INSERT",
            Op::Update => "UPDATE",
            Op::Delete => "DELETE",
        }
    }
}

#[derive(Debug)]
#[allow(inconsistent_fields)]
pub enum Error {
    Backend(BackendError),
    Pool(PoolError),
    Router(String),
    Lookup(String),
    NoTables,
    PublicationMismatch(String),
    PublicationHasRowFilter(String),
    PlacementNotStable(String),
    DestinationNotEmpty(usize),
    ProvisioningShardNotNext {
        declared: usize,
        expected: usize,
    },
    ProvisioningLocked,
    InstancesNotRegistered(String),
    InstancesNotArmed(String),
    TopologyChangeInProgress(String),
    PlacementNotByLookup(String),
    KeyMoveNoTables,
    KeyMoveDataTypeMismatch {
        table: String,
        expected: DataType,
        actual: DataType,
    },
    KeyMoveBadKey {
        data_type: DataType,
        value: String,
    },
    KeyMoveMissingKey {
        table: String,
        op: Op,
    },
    KeyMoveNoMoveQuery(String),
    KeyMoveLocked,
    KeyMoveIdentityGap {
        table: String,
        column: String,
    },
    KeyMoveTargetDirty {
        table: String,
        cleanup: String,
    },
    KeysSpanShards {
        key: String,
        expected: usize,
        got: usize,
    },
    KeyAlreadyOnTarget {
        key: String,
        shard: usize,
    },
    KeyMoveTargetOutOfRange {
        target: usize,
        shards: usize,
    },
    KeyMoveColumnType {
        table: String,
        column: String,
        expected: DataType,
        actual: String,
    },
    Net(NetError),
    Type(String),
    TransactionNotStarted,
    OutOfSync(char),
    CommitOutOfSync(char),
    RelationOutOfSync(char),
    SendOutOfSync(char),
    MissingData,
    Copy,
    PgError(ErrorResponse),
    NoReplicaIdentity(String, String),
    LsnDecode,
    MissingReplicationSlot(String),
    ParseInt,
    NoPrimary,
    Parser(String),
    NotConnected,
    ReplicationTimeout,
    NoReplicationTables(usize),
    NoReplicationSlot(usize),
    ParallelConnection,
    PipelineClosed,
    NoReplicas,
    TableValidation(TableValidationErrors),
    IncorrectCommand,
    SchemaSync(SchemaSyncError),
    NoSchema,
    NoNewCluster,
    JoinError(String),
    CopyAborted(PublicationTable),
    DataSyncAborted,
    ReplicationAborted,
    NoPublisher,
    AbortTimeout,
    TaskNotFound,
    NotReplication,
    BinaryFormatMismatch(ErrorResponse),
    Frontend(String),
    CommandCompleteNoRows(String),
    MissingKey,
    BroadcastNullColumnMissing {
        table: String,
        column: String,
    },
    ToastedIdentityColumn {
        table: String,
        oid: Oid,
    },
    ToastedRowMigration {
        table: String,
        oid: Oid,
    },
    /// The source's replica identity changed mid-stream: an UPDATE or DELETE came
    /// without the old row that the destination needs. Copying the table again
    /// recovers.
    FullIdentityMissingOld {
        table: String,
        oid: Oid,
        op: Op,
    },
    /// A two-phase commit failed and its transaction still needs cleaning up.
    TwoPcCleanupPending {
        transaction: TwoPcTransaction,
        source: Box<Error>,
    },
}

fn char_string(c: char) -> (out: String)
    ensures
        out@ == seq![c],
{
    let mut out: String = String::new();
    out.push(c);
    assert(out@ =~= seq![c]);
    out
}

impl vstd::std_specs::convert::FromSpecImpl<TableValidationError> for Error {
    open spec fn obeys_from_spec() -> bool {
        false
    }

    open spec fn from_spec(e: TableValidationError) -> Error {
        arbitrary()
    }
}

impl From<TableValidationError> for Error {
    /// A failure of a single table.
    fn from(e: TableValidationError) -> (out: Error)
        ensures
            out matches Error::TableValidation(found) && found.0@ == seq![e],
    {
        let mut found: Vec<TableValidationError> = Vec::new();
        found.push(e);
        assert(found@ =~= seq![e]);
        Error::TableValidation(TableValidationErrors(found))
    }
}

impl Error {
    /// The error in words.
    pub open spec fn text(self) -> Seq<char>
        decreases self,
    {
        match self {
            Error::Backend(a) => "backend: "@ + a.text(),
            Error::Pool(a) => "pool: "@ + a.text(),
            Error::Router(a) => "router: "@ + a@,
            Error::Lookup(a) => "sharding key lookup failed: "@ + a@,
            Error::NoTables => "no tables to publish"@,
            Error::PublicationMismatch(a) => "publication \""@ + a@ + "\" exists with a different table set"@,
            Error::PublicationHasRowFilter(a) => "publication \""@ + a@ + "\" has row filters"@,
            Error::PlacementNotStable(a) => "sharded table \""@ + a@ + "\" is routed by hashing; adding a shard would move its rows. Use lookup_result = \"shard\" or an explicit mapping, or reshard instead"@,
            Error::DestinationNotEmpty(a) => "the new shard is not empty: "@ + decimal(a as nat) + " table(s) exist"@,
            Error::ProvisioningShardNotNext { declared, expected } => "the provisioning shard is declared as shard "@ + decimal(declared as nat) + ", but the next shard is "@ + decimal(expected as nat),
            Error::ProvisioningLocked => "another pgdog instance is already provisioning this shard"@,
            Error::InstancesNotRegistered(a) => "pgdog instance(s) ["@ + a@ + "] haven't registered on the new shard; deploy the config with the provisioning entry everywhere first"@,
            Error::InstancesNotArmed(a) => "pgdog instance(s) ["@ + a@ + "] didn't pause omni writes in time; retry the cutover"@,
            Error::TopologyChangeInProgress(a) => "a topology change for database \""@ + a@ + "\" is already running"@,
            Error::PlacementNotByLookup(a) => "sharded "@ + a@ + " places rows by hashing or a static mapping; moving a single key requires lookup_result = \"shard\""@,
            Error::KeyMoveNoTables => "no sharded tables to move keys in"@,
            Error::KeyMoveDataTypeMismatch { table, expected, actual } => "sharded table "@ + table@ + " uses data type "@ + actual.spec_name() + ", but the other tables use "@ + expected.spec_name() + "; a key move requires one sharding key type"@,
            Error::KeyMoveBadKey { data_type, value } => "\""@ + value@ + "\" is not a valid "@ + data_type.spec_name() + " sharding key"@,
            Error::KeyMoveMissingKey { table, op } => "replicated "@ + op.spec_name() + " on \""@ + table@ + "\" doesn't carry the sharding key; its replica identity must cover the sharding column"@,
            Error::KeyMoveNoMoveQuery(a) => "sharded "@ + a@ + " has no \"move_query\" to flip a key's placement with"@,
            Error::KeyMoveLocked => "another pgdog instance is already moving keys in this database"@,
            Error::KeyMoveIdentityGap { table, column } => "the replica identity of "@ + table@ + " doesn't cover sharding column \""@ + column@ + "\"; run ALTER TABLE "@ + table@ + " REPLICA IDENTITY FULL, or use an index that covers it"@,
            Error::KeyMoveTargetDirty { table, cleanup } => "the target shard holds rows for the moving keys in "@ + table@ + ", likely from a crashed prior attempt; clean it first: "@ + cleanup@,
            Error::KeysSpanShards { key, expected, got } => "key \""@ + key@ + "\" resolves to shard "@ + decimal(got as nat) + ", but the other keys resolve to shard "@ + decimal(expected as nat) + "; move them separately"@,
            Error::KeyAlreadyOnTarget { key, shard } => "key \""@ + key@ + "\" already lives on shard "@ + decimal(shard as nat),
            Error::KeyMoveTargetOutOfRange { target, shards } => "shard "@ + decimal(target as nat) + " doesn't exist: the database has "@ + decimal(shards as nat) + " shard(s)"@,
            Error::KeyMoveColumnType { table, column, expected, actual } => "table "@ + table@ + "'s column \""@ + column@ + "\" is "@ + actual@ + ", but the sharding key type is "@ + expected.spec_name() + "; every table bearing the column must use the key's type"@,
            Error::Net(a) => "net: "@ + a.text(),
            Error::Type(a) => "type: "@ + a@,
            Error::TransactionNotStarted => "transaction not started"@,
            Error::OutOfSync(a) => "out of sync, got "@ + seq![a],
            Error::CommitOutOfSync(a) => "out of sync during commit, got "@ + seq![a],
            Error::RelationOutOfSync(a) => "out of sync during relation prepare, got "@ + seq![a],
            Error::SendOutOfSync(a) => "out of sync during row write, got "@ + seq![a],
            Error::MissingData => "missing data"@,
            Error::Copy => "copy error"@,
            Error::PgError(a) => "pg_error: "@ + a.text(),
            Error::NoReplicaIdentity(a, b) => "table \""@ + a@ + "\".\""@ + b@ + "\" has no replica identity"@,
            Error::LsnDecode => "lsn decode"@,
            Error::MissingReplicationSlot(a) => "replication slot \""@ + a@ + "\" doesn't exist, but it should"@,
            Error::ParseInt => "parse int"@,
            Error::NoPrimary => "shard has no primary"@,
            Error::Parser(a) => "parser: "@ + a@,
            Error::NotConnected => "not connected"@,
            Error::ReplicationTimeout => "replication timeout"@,
            Error::NoReplicationTables(a) => "shard "@ + decimal(a as nat) + " has no replication tables"@,
            Error::NoReplicationSlot(a) => "shard "@ + decimal(a as nat) + " has no replication slot"@,
            Error::ParallelConnection => "parallel connection error"@,
            Error::PipelineClosed => "pipelined connection task closed"@,
            Error::NoReplicas => "no replicas available for table sync"@,
            Error::TableValidation(a) => a.text(),
            Error::IncorrectCommand => "router returned incorrect command"@,
            Error::SchemaSync(a) => "schema: "@ + a@.text(),
            Error::NoSchema => "schema isn't loaded"@,
            Error::NoNewCluster => "config wasn't updated with new cluster"@,
            Error::JoinError(a) => "tokio: "@ + a@,
            Error::CopyAborted(a) => "copy for table "@ + a@.text() + " been aborted"@,
            Error::DataSyncAborted => "data sync has been aborted"@,
            Error::ReplicationAborted => "replication has been aborted"@,
            Error::NoPublisher => "waiter has no publisher"@,
            Error::AbortTimeout => "cutover abort timeout"@,
            Error::TaskNotFound => "task not found"@,
            Error::NotReplication => "task is not a replication task"@,
            Error::BinaryFormatMismatch(a) => "binary format mismatch (likely int -> bigint), use text copy instead: "@ + a.text(),
            Error::Frontend(a) => "frontend: "@ + a@,
            Error::CommandCompleteNoRows(a) => "command complete has no rows: "@ + a@,
            Error::MissingKey => "missing key in replication stream, out of sync"@,
            Error::BroadcastNullColumnMissing { table, column } => "table "@ + table@ + " has no column \""@ + column@ + "\" to filter NULL keys by"@,
            Error::ToastedIdentityColumn { table, oid } => "toasted identity column in UPDATE: "@ + table@ + " (oid "@ + decimal(oid.0 as nat) + ")"@,
            Error::ToastedRowMigration { table, oid } => "toasted column in PK-change UPDATE: "@ + table@ + " (oid "@ + decimal(oid.0 as nat) + ")"@,
            Error::FullIdentityMissingOld { table, oid, op } => "FULL identity "@ + op.spec_name() + " on "@ + table@ + " (oid "@ + decimal(oid.0 as nat) + "): missing OLD pre-image; source replica identity changed mid-stream"@,
            Error::TwoPcCleanupPending { transaction, source } => "2pc commit failed for "@ + transaction.text() + ": "@ + source.text(),
        }
    }

    /// The error in words.
    pub fn to_text(&self) -> (out: String)
        ensures
            out@ == self.text(),
        decreases self,
    {
        match self {
            Error::Backend(a) => {
                let mut out: String = "backend: ".to_owned();
                out.append(a.to_text().as_str());
                out
            },
            Error::Pool(a) => {
                let mut out: String = "pool: ".to_owned();
                out.append(a.to_text().as_str());
                out
            },
            Error::Router(a) => {
                let mut out: String = "router: ".to_owned();
                out.append(a.as_str());
                out
            },
            Error::Lookup(a) => {
                let mut out: String = "sharding key lookup failed: ".to_owned();
                out.append(a.as_str());
                out
            },
            Error::NoTables => "no tables to publish".to_owned(),
            Error::PublicationMismatch(a) => {
                let mut out: String = "publication \"".to_owned();
                out.append(a.as_str());
                out.append("\" exists with a different table set");
                out
            },
            Error::PublicationHasRowFilter(a) => {
                let mut out: String = "publication \"".to_owned();
                out.append(a.as_str());
                out.append("\" has row filters");
                out
            },
            Error::PlacementNotStable(a) => {
                let mut out: String = "sharded table \"".to_owned();
                out.append(a.as_str());
                out.append("\" is routed by hashing; adding a shard would move its rows. Use lookup_result = \"shard\" or an explicit mapping, or reshard instead");
                out
            },
            Error::DestinationNotEmpty(a) => {
                let mut out: String = "the new shard is not empty: ".to_owned();
                out.append(decimal_string(*a as u128).as_str());
                out.append(" table(s) exist");
                out
            },
            Error::ProvisioningShardNotNext { declared, expected } => {
                let mut out: String = "the provisioning shard is declared as shard ".to_owned();
                out.append(decimal_string(*declared as u128).as_str());
                out.append(", but the next shard is ");
                out.append(decimal_string(*expected as u128).as_str());
                out
            },
            Error::ProvisioningLocked => "another pgdog instance is already provisioning this shard".to_owned(),
            Error::InstancesNotRegistered(a) => {
                let mut out: String = "pgdog instance(s) [".to_owned();
                out.append(a.as_str());
                out.append("] haven't registered on the new shard; deploy the config with the provisioning entry everywhere first");
                out
            },
            Error::InstancesNotArmed(a) => {
                let mut out: String = "pgdog instance(s) [".to_owned();
                out.append(a.as_str());
                out.append("] didn't pause omni writes in time; retry the cutover");
                out
            },
            Error::TopologyChangeInProgress(a) => {
                let mut out: String = "a topology change for database \"".to_owned();
                out.append(a.as_str());
                out.append("\" is already running");
                out
            },
            Error::PlacementNotByLookup(a) => {
                let mut out: String = "sharded ".to_owned();
                out.append(a.as_str());
                out.append(" places rows by hashing or a static mapping; moving a single key requires lookup_result = \"shard\"");
                out
            },
            Error::KeyMoveNoTables => "no sharded tables to move keys in".to_owned(),
            Error::KeyMoveDataTypeMismatch { table, expected, actual } => {
                let mut out: String = "sharded table ".to_owned();
                out.append(table.as_str());
                out.append(" uses data type ");
                out.append(actual.name());
                out.append(", but the other tables use ");
                out.append(expected.name());
                out.append("; a key move requires one sharding key type");
                out
            },
            Error::KeyMoveBadKey { data_type, value } => {
                let mut out: String = "\"".to_owned();
                out.append(value.as_str());
                out.append("\" is not a valid ");
                out.append(data_type.name());
                out.append(" sharding key");
                out
            },
            Error::KeyMoveMissingKey { table, op } => {
                let mut out: String = "replicated ".to_owned();
                out.append(op.name());
                out.append(" on \"");
                out.append(table.as_str());
                out.append("\" doesn't carry the sharding key; its replica identity must cover the sharding column");
                out
            },
            Error::KeyMoveNoMoveQuery(a) => {
                let mut out: String = "sharded ".to_owned();
                out.append(a.as_str());
                out.append(" has no \"move_query\" to flip a key's placement with");
                out
            },
            Error::KeyMoveLocked => "another pgdog instance is already moving keys in this database".to_owned(),
            Error::KeyMoveIdentityGap { table, column } => {
                let mut out: String = "the replica identity of ".to_owned();
                out.append(table.as_str());
                out.append(" doesn't cover sharding column \"");
                out.append(column.as_str());
                out.append("\"; run ALTER TABLE ");
                out.append(table.as_str());
                out.append(" REPLICA IDENTITY FULL, or use an index that covers it");
                out
            },
            Error::KeyMoveTargetDirty { table, cleanup } => {
                let mut out: String = "the target shard holds rows for the moving keys in ".to_owned();
                out.append(table.as_str());
                out.append(", likely from a crashed prior attempt; clean it first: ");
                out.append(cleanup.as_str());
                out
            },
            Error::KeysSpanShards { key, expected, got } => {
                let mut out: String = "key \"".to_owned();
                out.append(key.as_str());
                out.append("\" resolves to shard ");
                out.append(decimal_string(*got as u128).as_str());
                out.append(", but the other keys resolve to shard ");
                out.append(decimal_string(*expected as u128).as_str());
                out.append("; move them separately");
                out
            },
            Error::KeyAlreadyOnTarget { key, shard } => {
                let mut out: String = "key \"".to_owned();
                out.append(key.as_str());
                out.append("\" already lives on shard ");
                out.append(decimal_string(*shard as u128).as_str());
                out
            },
            Error::KeyMoveTargetOutOfRange { target, shards } => {
                let mut out: String = "shard ".to_owned();
                out.append(decimal_string(*target as u128).as_str());
                out.append(" doesn't exist: the database has ");
                out.append(decimal_string(*shards as u128).as_str());
                out.append(" shard(s)");
                out
            },
            Error::KeyMoveColumnType { table, column, expected, actual } => {
                let mut out: String = "table ".to_owned();
                out.append(table.as_str());
                out.append("'s column \"");
                out.append(column.as_str());
                out.append("\" is ");
                out.append(actual.as_str());
                out.append(", but the sharding key type is ");
                out.append(expected.name());
                out.append("; every table bearing the column must use the key's type");
                out
            },
            Error::Net(a) => {
                let mut out: String = "net: ".to_owned();
                out.append(a.to_text().as_str());
                out
            },
            Error::Type(a) => {
                let mut out: String = "type: ".to_owned();
                out.append(a.as_str());
                out
            },
            Error::TransactionNotStarted => "transaction not started".to_owned(),
            Error::OutOfSync(a) => {
                let mut out: String = "out of sync, got ".to_owned();
                out.append(char_string(*a).as_str());
                out
            },
            Error::CommitOutOfSync(a) => {
                let mut out: String = "out of sync during commit, got ".to_owned();
                out.append(char_string(*a).as_str());
                out
            },
            Error::RelationOutOfSync(a) => {
                let mut out: String = "out of sync during relation prepare, got ".to_owned();
                out.append(char_string(*a).as_str());
                out
            },
            Error::SendOutOfSync(a) => {
                let mut out: String = "out of sync during row write, got ".to_owned();
                out.append(char_string(*a).as_str());
                out
            },
            Error::MissingData => "missing data".to_owned(),
            Error::Copy => "copy error".to_owned(),
            Error::PgError(a) => {
                let mut out: String = "pg_error: ".to_owned();
                out.append(a.to_text().as_str());
                out
            },
            Error::NoReplicaIdentity(a, b) => {
                let mut out: String = "table \"".to_owned();
                out.append(a.as_str());
                out.append("\".\"");
                out.append(b.as_str());
                out.append("\" has no replica identity");
                out
            },
            Error::LsnDecode => "lsn decode".to_owned(),
            Error::MissingReplicationSlot(a) => {
                let mut out: String = "replication slot \"".to_owned();
                out.append(a.as_str());
                out.append("\" doesn't exist, but it should");
                out
            },
            Error::ParseInt => "parse int".to_owned(),
            Error::NoPrimary => "shard has no primary".to_owned(),
            Error::Parser(a) => {
                let mut out: String = "parser: ".to_owned();
                out.append(a.as_str());
                out
            },
            Error::NotConnected => "not connected".to_owned(),
            Error::ReplicationTimeout => "replication timeout".to_owned(),
            Error::NoReplicationTables(a) => {
                let mut out: String = "shard ".to_owned();
                out.append(decimal_string(*a as u128).as_str());
                out.append(" has no replication tables");
                out
            },
            Error::NoReplicationSlot(a) => {
                let mut out: String = "shard ".to_owned();
                out.append(decimal_string(*a as u128).as_str());
                out.append(" has no replication slot");
                out
            },
            Error::ParallelConnection => "parallel connection error".to_owned(),
            Error::PipelineClosed => "pipelined connection task closed".to_owned(),
            Error::NoReplicas => "no replicas available for table sync".to_owned(),
            Error::TableValidation(a) => {
                let mut out: String = String::new();
                out.append(a.to_text().as_str());
                assert(out@ =~= self.text());
                out
            },
            Error::IncorrectCommand => "router returned incorrect command".to_owned(),
            Error::SchemaSync(a) => {
                let mut out: String = "schema: ".to_owned();
                out.append(a.to_text().as_str());
                out
            },
            Error::NoSchema => "schema isn't loaded".to_owned(),
            Error::NoNewCluster => "config wasn't updated with new cluster".to_owned(),
            Error::JoinError(a) => {
                let mut out: String = "tokio: ".to_owned();
                out.append(a.as_str());
                out
            },
            Error::CopyAborted(a) => {
                let mut out: String = "copy for table ".to_owned();
                out.append(a.to_text().as_str());
                out.append(" been aborted");
                out
            },
            Error::DataSyncAborted => "data sync has been aborted".to_owned(),
            Error::ReplicationAborted => "replication has been aborted".to_owned(),
            Error::NoPublisher => "waiter has no publisher".to_owned(),
            Error::AbortTimeout => "cutover abort timeout".to_owned(),
            Error::TaskNotFound => "task not found".to_owned(),
            Error::NotReplication => "task is not a replication task".to_owned(),
            Error::BinaryFormatMismatch(a) => {
                let mut out: String = "binary format mismatch (likely int -> bigint), use text copy instead: ".to_owned();
                out.append(a.to_text().as_str());
                out
            },
            Error::Frontend(a) => {
                let mut out: String = "frontend: ".to_owned();
                out.append(a.as_str());
                out
            },
            Error::CommandCompleteNoRows(a) => {
                let mut out: String = "command complete has no rows: ".to_owned();
                out.append(a.as_str());
                out
            },
            Error::MissingKey => "missing key in replication stream, out of sync".to_owned(),
            Error::BroadcastNullColumnMissing { table, column } => {
                let mut out: String = "table ".to_owned();
                out.append(table.as_str());
                out.append(" has no column \"");
                out.append(column.as_str());
                out.append("\" to filter NULL keys by");
                out
            },
            Error::ToastedIdentityColumn { table, oid } => {
                let mut out: String = "toasted identity column in UPDATE: ".to_owned();
                out.append(table.as_str());
                out.append(" (oid ");
                out.append(decimal_string(oid.0 as u128).as_str());
                out.append(")");
                out
            },
            Error::ToastedRowMigration { table, oid } => {
                let mut out: String = "toasted column in PK-change UPDATE: ".to_owned();
                out.append(table.as_str());
                out.append(" (oid ");
                out.append(decimal_string(oid.0 as u128).as_str());
                out.append(")");
                out
            },
            Error::FullIdentityMissingOld { table, oid, op } => {
                let mut out: String = "FULL identity ".to_owned();
                out.append(op.name());
                out.append(" on ");
                out.append(table.as_str());
                out.append(" (oid ");
                out.append(decimal_string(oid.0 as u128).as_str());
                out.append("): missing OLD pre-image; source replica identity changed mid-stream");
                out
            },
            Error::TwoPcCleanupPending { transaction, source } => {
                let mut out: String = "2pc commit failed for ".to_owned();
                out.append(transaction.to_text().as_str());
                out.append(": ");
                out.append(source.to_text().as_str());
                out
            },
        }
    }

    /// The two-phase commit transaction that still needs cleaning up, if any.
    pub fn two_pc_cleanup_transaction(&self) -> (out: Option<TwoPcTransaction>)
        ensures
            out == match *self {
                Error::TwoPcCleanupPending { transaction, .. } => Some(transaction),
                _ => None,
            },
    {
        match self {
            Error::TwoPcCleanupPending { transaction, .. } => Some(*transaction),
            _ => None,
        }
    }

    /// Whether the copy of a table should be tried again after this error: the
    /// connection, the server or the stream went away, and may come back.
    pub open spec fn retryable(self) -> bool
        decreases self,
    {
        match self {
            Error::TwoPcCleanupPending { source, .. } => source.retryable(),
            Error::Net(inner) => inner.retryable(),
            Error::Pool(inner) => inner.retryable(),
            Error::Backend(inner) => inner.retryable(),
            Error::NotConnected => true,
            Error::NoPrimary => true,
            Error::ReplicationTimeout => true,
            Error::PgError(inner) => inner.retryable(),
            Error::ParallelConnection => true,
            Error::PipelineClosed => true,
            _ => false,
        }
    }

    /// Whether the copy of a table should be tried again after this error.
    pub fn is_retryable(&self) -> (b: bool)
        ensures
            b == self.retryable(),
        decreases self,
    {
        match self {
            Error::TwoPcCleanupPending { source, .. } => source.is_retryable(),
            Error::Net(inner) => inner.is_retryable(),
            Error::Pool(inner) => inner.is_retryable(),
            Error::Backend(inner) => inner.is_retryable(),
            // No connection yet, or the primary is down.
            Error::NotConnected => true,
            Error::NoPrimary => true,
            // The stream stalled; the temporary slot is gone, and the next try
            // starts afresh.
            Error::ReplicationTimeout => true,
            Error::PgError(inner) => inner.is_retryable(),
            Error::ParallelConnection => true,
            // A shard's task closed and took its transaction with it.
            Error::PipelineClosed => true,
            _ => false,
        }
    }
}

/// An error from Postgres is judged by its SQLSTATE alone, however it came.
pub proof fn law_sqlstate_decides(response: ErrorResponse)
    ensures
        Error::PgError(response).retryable() == response.retryable(),
        Error::Backend(BackendError::ExecutionError(response)).retryable() == response.retryable(),
        Error::Backend(BackendError::ConnectionError(response)).retryable() == response.retryable(),
{
}

} // verus!
