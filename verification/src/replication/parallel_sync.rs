//! Copies tables in parallel, up to a number of workers.
//!
//! Each table uses its own replication slot to find its position, so there have to
//! be enough of them on the source.

use std::sync::Arc;
use vstd::arithmetic::power2::{lemma2_to64, lemma_pow2_unfold, pow2};
use vstd::prelude::*;

use super::error::{Error, TwoPcTransaction};
use super::move_keys::{key_condition, KeyMoveScope, MoveTable};
use super::publication::identifier;
use super::table::{PublicationTable, PublicationTableView, Table};
use crate::text::{around, decimal, decimal_string, escape_identifier, join, joined, str_eq, texts};

verus! {

/// The longest time that can be waited for, in nanoseconds.
pub const MAX_DELAY: u128 = 18446744073709551615999999999;

/// How what a failed copy left behind is dealt with.
#[derive(Debug, Clone, Copy, PartialEq, Eq, Structural)]
pub enum Cleanup {
    /// Rows on the destination are looked for: with any there, copying again would
    /// only collide with them.
    ProbeRows,
    /// The rows of the moving keys are deleted; the destination holds others.
    DeleteMovedRows,
}

/// What happened to the copy of a table.
#[derive(Debug)]
pub enum CopyEvent {
    Copied,
    Failed(Error),
    /// Rows were looked for, and found or not.
    Probed { rows: bool },
    Deleted,
    DeleteFailed(Error),
}

/// What is to be done about the copy of a table.
#[derive(Debug)]
pub enum CopyAction {
    /// Copy the table.
    Copy,
    /// Nothing: the table has been copied.
    Done,
    /// Wait for a time, then for a transaction to be cleaned up, and then see to
    /// what is left.
    Retry { delay: u128, wait_for: Option<TwoPcTransaction>, cleanup: Cleanup },
    /// Give up. The operator is warned of rows that are left, where they are looked
    /// for.
    Fail { error: Error, probe: bool },
}

/// The copy of a table, which is tried again after errors that may pass.
#[derive(Debug)]
pub struct ParallelSync {
    /// How many copies have failed and were tried again.
    attempt: usize,
    /// How often the table may be copied in all.
    max_retries: usize,
    /// The first delay between tries, in nanoseconds.
    base_delay: u128,
    two_pc: bool,
    key_move: bool,
    /// The error that is being recovered from.
    error: Option<Error>,
}

/// The state of a [`ParallelSync`].
pub struct ParallelSyncView {
    pub attempt: usize,
    pub max_retries: usize,
    pub base_delay: u128,
    pub two_pc: bool,
    pub key_move: bool,
    pub error: Option<Error>,
}

/// How often the delay has doubled after some failed tries: with each of the first
/// five.
pub open spec fn doublings(attempt: nat) -> nat {
    if attempt <= 5 {
        attempt
    } else {
        5
    }
}

fn delay_factor(attempt: usize) -> (out: u128)
    ensures
        out == pow2(doublings(attempt as nat)),
        1 <= out <= 32,
{
    proof {
        lemma2_to64();
    }
    let last: usize = if attempt <= 5 {
        attempt
    } else {
        5
    };
    let mut out: u128 = 1;
    let mut i: usize = 0;
    while i < last
        invariant
            i <= last <= 5,
            out == pow2(i as nat),
            1 <= out <= 32,
        decreases last - i,
    {
        proof {
            lemma2_to64();
            lemma_pow2_unfold((i + 1) as nat);
        }
        out = out * 2;
        i += 1;
    }
    out
}

impl ParallelSyncView {
    /// The time to wait after a failed try: it doubles each time, five times.
    pub open spec fn backoff(self) -> nat {
        self.base_delay as nat * pow2(doublings(self.attempt as nat))
    }

    /// Whether an error is final: it will not pass, or it came of the last copy that
    /// is allowed.
    pub open spec fn terminal(self, e: Error) -> bool {
        !e.retryable() || self.attempt + 1 >= self.max_retries
    }

    /// Whether the delays can be waited for, and no more copies have failed and been
    /// tried again than allowed: the last one is not.
    pub open spec fn wf(self) -> bool {
        &&& self.base_delay * 32 <= MAX_DELAY
        &&& self.attempt == 0 || self.attempt < self.max_retries
        &&& self.error is Some ==> self.attempt > 0
    }

    /// How what a failed copy left behind is dealt with.
    pub open spec fn cleanup(self) -> Cleanup {
        if self.key_move {
            Cleanup::DeleteMovedRows
        } else {
            Cleanup::ProbeRows
        }
    }

    /// Whether an event can come now.
    pub open spec fn awaits(self, event: CopyEvent) -> bool {
        match event {
            CopyEvent::Copied => self.error is None,
            CopyEvent::Failed(_) => self.error is None,
            CopyEvent::Probed { .. } => self.error is Some && !self.key_move,
            CopyEvent::Deleted => self.error is Some && self.key_move,
            CopyEvent::DeleteFailed(_) => self.error is Some && self.key_move,
        }
    }

    /// The transaction to wait for after an error.
    pub open spec fn wait_for(self, e: Error) -> Option<TwoPcTransaction> {
        match e {
            Error::TwoPcCleanupPending { transaction, .. } => if self.two_pc {
                Some(transaction)
            } else {
                None
            },
            _ => None,
        }
    }

    /// The error that was recovered from is forgotten.
    pub open spec fn recovered(self) -> ParallelSyncView {
        ParallelSyncView { error: None, ..self }
    }

    /// What follows from an event.
    pub open spec fn on(self, event: CopyEvent) -> (ParallelSyncView, CopyAction) {
        match event {
            CopyEvent::Copied => (self, CopyAction::Done),
            CopyEvent::Failed(e) => if self.terminal(e) {
                (self, CopyAction::Fail { error: e, probe: !self.key_move })
            } else {
                (
                    ParallelSyncView {
                        attempt: (self.attempt + 1) as usize,
                        error: Some(e),
                        ..self
                    },
                    CopyAction::Retry {
                        delay: self.backoff() as u128,
                        wait_for: self.wait_for(e),
                        cleanup: self.cleanup(),
                    },
                )
            },
            CopyEvent::Probed { rows } => (
                self.recovered(),
                if rows {
                    CopyAction::Fail { error: self.error->0, probe: false }
                } else {
                    CopyAction::Copy
                },
            ),
            CopyEvent::Deleted => (self.recovered(), CopyAction::Copy),
            CopyEvent::DeleteFailed(e) => (
                self.recovered(),
                CopyAction::Fail { error: e, probe: false },
            ),
        }
    }

    /// What is done about some events, one after another, until the copy is over or
    /// an event comes that is not waited for.
    pub open spec fn run(self, events: Seq<CopyEvent>) -> Seq<CopyAction>
        decreases events.len(),
    {
        if events.len() == 0 || !self.awaits(events[0]) {
            Seq::empty()
        } else {
            let (after, action) = self.on(events[0]);
            if action is Done || action is Fail {
                seq![action]
            } else {
                seq![action] + after.run(events.skip(1))
            }
        }
    }
}

/// How often a copy is started among some actions.
pub open spec fn copies_in(actions: Seq<CopyAction>) -> nat
    decreases actions.len(),
{
    if actions.len() == 0 {
        0
    } else {
        copies_in(actions.skip(1)) + if actions[0] is Copy {
            1nat
        } else {
            0nat
        }
    }
}

impl View for ParallelSync {
    type V = ParallelSyncView;

    closed spec fn view(&self) -> ParallelSyncView {
        ParallelSyncView {
            attempt: self.attempt,
            max_retries: self.max_retries,
            base_delay: self.base_delay,
            two_pc: self.two_pc,
            key_move: self.key_move,
            error: self.error,
        }
    }
}

impl ParallelSync {
    /// A copy that has not been tried.
    pub fn new(max_retries: usize, base_delay: u128, two_pc: bool, key_move: bool) -> (out: Self)
        requires
            base_delay * 32 <= MAX_DELAY,
        ensures
            out@ == (ParallelSyncView {
                attempt: 0,
                max_retries,
                base_delay,
                two_pc,
                key_move,
                error: None,
            }),
            out@.wf(),
    {
        ParallelSync { attempt: 0, max_retries, base_delay, two_pc, key_move, error: None }
    }

    /// Takes what happened and tells what is to be done.
    pub fn next(&mut self, event: CopyEvent) -> (action: CopyAction)
        requires
            old(self)@.wf(),
            old(self)@.awaits(event),
        ensures
            final(self)@.wf(),
            (final(self)@, action) == old(self)@.on(event),
    {
        match event {
            CopyEvent::Copied => CopyAction::Done,
            CopyEvent::Failed(e) => {
                if !e.is_retryable() || self.max_retries == 0 || self.attempt >= self.max_retries
                    - 1 {
                    return CopyAction::Fail { error: e, probe: !self.key_move };
                }
                let factor: u128 = delay_factor(self.attempt);
                proof {
                    assert(self.base_delay * factor <= self.base_delay * 32) by (nonlinear_arith)
                        requires
                            factor <= 32,
                            0 <= self.base_delay,
                    ;
                }
                let delay: u128 = self.base_delay * factor;
                self.attempt += 1;
                let wait_for: Option<TwoPcTransaction> = if self.two_pc {
                    e.two_pc_cleanup_transaction()
                } else {
                    None
                };
                self.error = Some(e);
                CopyAction::Retry {
                    delay,
                    wait_for,
                    cleanup: if self.key_move {
                        Cleanup::DeleteMovedRows
                    } else {
                        Cleanup::ProbeRows
                    },
                }
            },
            CopyEvent::Probed { rows } => {
                let mut error: Option<Error> = None;
                std::mem::swap(&mut error, &mut self.error);
                if rows {
                    match error {
                        Some(error) => CopyAction::Fail { error, probe: false },
                        None => CopyAction::Copy,
                    }
                } else {
                    CopyAction::Copy
                }
            },
            CopyEvent::Deleted => {
                self.error = None;
                CopyAction::Copy
            },
            CopyEvent::DeleteFailed(e) => {
                self.error = None;
                CopyAction::Fail { error: e, probe: false }
            },
        }
    }
}

/// What can still be started is what is left of the allowed number.
proof fn lemma_copies_left(s: ParallelSyncView, events: Seq<CopyEvent>)
    requires
        s.wf(),
    ensures
        copies_in(s.run(events)) <= if s.error is Some {
            (s.max_retries - s.attempt) as nat
        } else if s.max_retries == 0 {
            0
        } else {
            (s.max_retries - s.attempt - 1) as nat
        },
    decreases events.len(),
{
    reveal_with_fuel(copies_in, 2);
    let actions = s.run(events);
    if actions.len() > 0 {
        let (after, action) = s.on(events[0]);
        if action is Done || action is Fail {
            assert(actions.skip(1) =~= Seq::<CopyAction>::empty());
        } else {
            assert(actions.skip(1) =~= after.run(events.skip(1)));
            lemma_copies_left(after, events.skip(1));
        }
    }
}

/// Whatever happens, a table is copied no more often than allowed, the first copy
/// counted. That one is made even where none is allowed.
pub proof fn law_copies_are_bounded(s: ParallelSyncView, events: Seq<CopyEvent>)
    requires
        s.wf(),
        s.attempt == 0,
        s.error is None,
    ensures
        s.max_retries > 0 ==> 1 + copies_in(s.run(events)) <= s.max_retries,
        s.max_retries == 0 ==> copies_in(s.run(events)) == 0,
{
    lemma_copies_left(s, events);
}

/// One failed copy after another, each with nothing left in the way of the next.
pub open spec fn failures(key_move: bool, errors: Seq<Error>) -> Seq<CopyEvent>
    decreases errors.len(),
{
    if errors.len() == 0 {
        Seq::empty()
    } else {
        seq![
            CopyEvent::Failed(errors[0]),
            if key_move {
                CopyEvent::Deleted
            } else {
                CopyEvent::Probed { rows: false }
            },
        ] + failures(key_move, errors.skip(1))
    }
}

proof fn lemma_failures_use_what_is_left(s: ParallelSyncView, errors: Seq<Error>)
    requires
        s.wf(),
        s.error is None,
        errors.len() > 0,
        s.attempt + errors.len() == s.max_retries,
        forall|i: int| 0 <= i < errors.len() ==> (#[trigger] errors[i]).retryable(),
    ensures
        ({
            let actions = s.run(failures(s.key_move, errors));
            &&& 1 + copies_in(actions) == errors.len()
            &&& actions.len() > 0
            &&& actions.last() == (CopyAction::Fail { error: errors.last(), probe: !s.key_move })
        }),
    decreases errors.len(),
{
    reveal_with_fuel(copies_in, 3);
    let events = failures(s.key_move, errors);
    let actions = s.run(events);
    let (failed, first) = s.on(events[0]);
    if errors.len() == 1 {
        assert(actions =~= seq![first]);
        assert(actions.skip(1) =~= Seq::<CopyAction>::empty());
    } else {
        let rest = errors.skip(1);
        let (after, second) = failed.on(events[1]);
        assert(events.skip(1)[0] == events[1]);
        assert(events.skip(1).skip(1) =~= failures(s.key_move, rest));
        assert forall|i: int| 0 <= i < rest.len() implies (#[trigger] rest[i]).retryable() by {
            assert(rest[i] == errors[i + 1]);
        }
        lemma_failures_use_what_is_left(after, rest);
        let tail = after.run(failures(s.key_move, rest));
        assert(failed.run(events.skip(1)) =~= seq![second] + tail);
        assert(actions =~= seq![first] + (seq![second] + tail));
        assert(actions.skip(1) =~= seq![second] + tail);
        assert((seq![second] + tail).skip(1) =~= tail);
        assert(actions.last() == tail.last());
    }
}

/// Where every copy fails with an error that may pass and nothing is left behind,
/// the table is copied as often as allowed, and the error of the last copy is the
/// one that is handed on.
pub proof fn law_passing_failures_use_every_copy(s: ParallelSyncView, errors: Seq<Error>)
    requires
        s.wf(),
        s.attempt == 0,
        s.error is None,
        s.max_retries > 0,
        errors.len() == s.max_retries,
        forall|i: int| 0 <= i < errors.len() ==> (#[trigger] errors[i]).retryable(),
    ensures
        ({
            let actions = s.run(failures(s.key_move, errors));
            &&& 1 + copies_in(actions) == s.max_retries
            &&& actions.last() == (CopyAction::Fail { error: errors.last(), probe: !s.key_move })
        }),
{
    lemma_failures_use_what_is_left(s, errors);
}

/// The delay between tries never shrinks, and never exceeds thirty-two times the
/// first.
pub proof fn law_backoff_grows_to_a_limit(s: ParallelSyncView, later: ParallelSyncView)
    requires
        later == (ParallelSyncView { attempt: later.attempt, error: later.error, ..s }),
        s.attempt <= later.attempt,
    ensures
        s.base_delay <= s.backoff() <= later.backoff() <= s.base_delay * 32,
{
    lemma2_to64();
    let a = pow2(doublings(s.attempt as nat));
    let b = pow2(doublings(later.attempt as nat));
    assert(1 <= a <= b <= 32);
    let d = s.base_delay as int;
    assert(d <= d * a <= d * b <= d * 32) by (nonlinear_arith)
        requires
            1 <= a <= b <= 32,
            0 <= d,
    ;
}

/// The sharding column of a table, by the first entry for it.
pub open spec fn moved_column(
    tables: Seq<MoveTable>,
    schema: Seq<char>,
    name: Seq<char>,
) -> Option<Seq<char>>
    decreases tables.len(),
{
    if tables.len() == 0 {
        None
    } else if tables[0].schema@ == schema && tables[0].name@ == name {
        Some(tables[0].sharding_column@)
    } else {
        moved_column(tables.drop_first(), schema, name)
    }
}

/// The destination of a table's rows, escaped.
pub open spec fn escaped_destination(table: PublicationTableView) -> Seq<char> {
    identifier(table.destination_schema()) + "."@ + identifier(table.destination_name())
}

fn destination_name(table: &PublicationTable) -> (out: String)
    ensures
        out@ == escaped_destination(table@),
{
    let mut out: String = around(
        "\"",
        escape_identifier(table.destination_schema()).as_str(),
        "\"",
    );
    out.append(".");
    out.append(
        around("\"", escape_identifier(table.destination_name()).as_str(), "\"").as_str(),
    );
    out
}

/// The sharding column of a table whose rows move.
pub fn sharding_column<'a>(table: &PublicationTable, scope: &'a KeyMoveScope) -> (out: Option<
    &'a String,
>)
    ensures
        match (out, moved_column(scope.spec_tables(), table@.schema, table@.name)) {
            (Some(column), Some(expected)) => column@ == expected,
            (None, None) => true,
            _ => false,
        },
{
    let tables: &Vec<MoveTable> = scope.tables();
    let mut i: usize = 0;
    assert(tables@.skip(0) =~= tables@);
    while i < tables.len()
        invariant
            i <= tables.len(),
            tables@ == scope.spec_tables(),
            moved_column(tables@, table@.schema, table@.name) == moved_column(
                tables@.skip(i as int),
                table@.schema,
                table@.name,
            ),
        decreases tables.len() - i,
    {
        assert(tables@.skip(i as int).drop_first() =~= tables@.skip(i + 1));
        if str_eq(tables[i].schema.as_str(), table.schema.as_str()) && str_eq(
            tables[i].name.as_str(),
            table.name.as_str(),
        ) {
            return Some(&tables[i].sharding_column);
        }
        i += 1;
    }
    None
}

/// The statement that deletes the rows of the moving keys from a table of the
/// destination, so that they can be copied again. The table must be one of those
/// whose rows move.
pub fn delete_moved_rows(table: &PublicationTable, scope: &KeyMoveScope) -> (out: Result<
    String,
    Error,
>)
    ensures
        match (out, moved_column(scope.spec_tables(), table@.schema, table@.name)) {
            (Ok(sql), Some(column)) => sql@ == "DELETE FROM "@ + escaped_destination(table@)
                + " WHERE "@ + key_condition(column, scope.moving()),
            (Err(e), None) => e is KeyMoveNoTables,
            _ => false,
        },
{
    match sharding_column(table, scope) {
        Some(column) => {
            let mut sql: String = "DELETE FROM ".to_owned();
            sql.append(destination_name(table).as_str());
            sql.append(" WHERE ");
            sql.append(scope.predicate_sql(column.as_str()).as_str());
            Ok(sql)
        },
        None => Err(Error::KeyMoveNoTables),
    }
}

/// The query that finds out whether a table of the destination has rows.
pub fn probe_query(table: &PublicationTable) -> (out: String)
    ensures
        out@ == "SELECT 1 FROM "@ + escaped_destination(table@) + " LIMIT 1"@,
{
    around("SELECT 1 FROM ", destination_name(table).as_str(), " LIMIT 1")
}

/// Whether a shard answered the probe with a row. One that did not answer counts as
/// empty, since it can't be shown to hold rows.
pub open spec fn answered_row(answer: Result<Vec<char>, Error>) -> bool {
    match answer {
        Ok(codes) => codes@.contains('D'),
        Err(_) => false,
    }
}

/// The shards below a number that answered with a row.
pub open spec fn shards_with_rows(answers: Seq<Result<Vec<char>, Error>>) -> Seq<usize>
    decreases answers.len(),
{
    if answers.len() == 0 {
        Seq::empty()
    } else {
        let before = shards_with_rows(answers.drop_last());
        if answered_row(answers.last()) {
            before.push((answers.len() - 1) as usize)
        } else {
            before
        }
    }
}

fn has_row(codes: &Vec<char>) -> (b: bool)
    ensures
        b == codes@.contains('D'),
{
    let mut i: usize = 0;
    while i < codes.len()
        invariant
            i <= codes.len(),
            forall|j: int| 0 <= j < i ==> codes@[j] != 'D',
        decreases codes.len() - i,
    {
        if codes[i] == 'D' {
            return true;
        }
        i += 1;
    }
    false
}

/// The shards that hold rows of a table, by the codes of the messages that each
/// answered the probe with.
pub fn destination_has_rows(answers: &Vec<Result<Vec<char>, Error>>) -> (out: Vec<usize>)
    ensures
        out@ == shards_with_rows(answers@),
{
    let mut out: Vec<usize> = Vec::new();
    let mut i: usize = 0;
    assert(out@ =~= shards_with_rows(answers@.take(0)));
    while i < answers.len()
        invariant
            i <= answers.len(),
            out@ == shards_with_rows(answers@.take(i as int)),
        decreases answers.len() - i,
    {
        assert(answers@.take(i + 1).drop_last() =~= answers@.take(i as int));
        let row: bool = match &answers[i] {
            Ok(codes) => has_row(codes),
            Err(_) => false,
        };
        if row {
            out.push(i);
        }
        i += 1;
    }
    assert(answers@.take(answers@.len() as int) =~= answers@);
    out
}

/// Some shard numbers in words.
pub open spec fn shard_list(shards: Seq<usize>) -> Seq<char> {
    "["@ + joined(shards.map_values(|n: usize| decimal(n as nat)), ", "@) + "]"@
}

/// What the operator is told about rows that an earlier copy has left.
pub open spec fn leftover_text(table: PublicationTableView, shards: Seq<usize>) -> Seq<char> {
    "destination "@ + table.destination() + " holds rows from a prior COPY attempt on shard(s) "@
        + shard_list(shards) + "; truncate before re-running the copy: TRUNCATE "@
        + table.destination() + ";"@
}

/// What the operator is told about rows that an earlier copy has left.
pub fn leftover_warning(table: &PublicationTable, shards: &Vec<usize>) -> (out: String)
    ensures
        out@ == leftover_text(table@, shards@),
{
    let ghost all = shards@.map_values(|n: usize| decimal(n as nat));
    let mut numbers: Vec<String> = Vec::new();
    let mut i: usize = 0;
    while i < shards.len()
        invariant
            i <= shards.len(),
            all == shards@.map_values(|n: usize| decimal(n as nat)),
            texts(numbers@) == all.take(i as int),
        decreases shards.len() - i,
    {
        let ghost before = texts(numbers@);
        numbers.push(decimal_string(shards[i] as u128));
        assert(texts(numbers@) =~= before.push(all[i as int]));
        assert(all.take(i + 1) =~= all.take(i as int).push(all[i as int]));
        i += 1;
    }
    assert(all.take(all.len() as int) =~= all);
    let list: String = around("[", join(&numbers, ", ").as_str(), "]");
    let mut out: String = "destination ".to_owned();
    out.append(table.destination().as_str());
    out.append(" holds rows from a prior COPY attempt on shard(s) ");
    out.append(list.as_str());
    out.append("; truncate before re-running the copy: TRUNCATE ");
    out.append(table.destination().as_str());
    out.append(";");
    out
}

/// Whether the copy of a table may start: a worker is free, and the copy has not
/// been called off.
pub fn may_start(permit: bool, cancelled: bool) -> (out: Result<(), Error>)
    ensures
        match out {
            Ok(_) => permit && !cancelled,
            Err(Error::ParallelConnection) => !permit,
            Err(Error::DataSyncAborted) => permit && cancelled,
            Err(_) => false,
        },
{
    if !permit {
        return Err(Error::ParallelConnection);
    }
    if cancelled {
        return Err(Error::DataSyncAborted);
    }
    Ok(())
}

/// Copies the tables of a shard from its replicas.
#[derive(Debug)]
pub struct ParallelSyncManager {
    tables: Vec<Table>,
    replicas: usize,
    permits: usize,
    key_move: Option<Arc<KeyMoveScope>>,
}

impl ParallelSyncManager {
    pub closed spec fn spec_tables(self) -> Seq<Table> {
        self.tables@
    }

    pub closed spec fn spec_replicas(self) -> usize {
        self.replicas
    }

    pub closed spec fn spec_permits(self) -> usize {
        self.permits
    }

    pub closed spec fn moves_keys(self) -> bool {
        self.key_move is Some
    }

    /// There is a replica to copy from.
    pub open spec fn wf(self) -> bool {
        self.spec_replicas() > 0
    }

    /// Copies tables from a number of replicas, of which there must be one, with a
    /// number of workers for each.
    pub fn new(
        tables: Vec<Table>,
        replicas: usize,
        parallel_copies: usize,
        key_move: Option<Arc<KeyMoveScope>>,
    ) -> (out: Result<Self, Error>)
        requires
            replicas * parallel_copies <= usize::MAX,
        ensures
            match out {
                Ok(manager) => {
                    &&& replicas > 0
                    &&& manager.wf()
                    &&& manager.spec_tables() == tables@
                    &&& manager.spec_replicas() == replicas
                    &&& manager.spec_permits() == replicas * parallel_copies
                    &&& manager.moves_keys() == (key_move is Some)
                },
                Err(e) => replicas == 0 && e is NoReplicas,
            },
    {
        if replicas == 0 {
            return Err(Error::NoReplicas);
        }
        Ok(
            ParallelSyncManager {
                tables,
                replicas,
                permits: replicas * parallel_copies,
                key_move,
            },
        )
    }

    /// How many tables are copied at a time.
    pub fn permits(&self) -> (out: usize)
        ensures
            out == self.spec_permits(),
    {
        self.permits
    }

    /// How many tables are copied at a time from each replica.
    pub fn parallel_copies(&self) -> (out: usize)
        requires
            self.wf(),
        ensures
            out == self.spec_permits() as int / self.spec_replicas() as int,
    {
        self.permits / self.replicas
    }

    /// Whether the tables are copied one after another: a move of keys copies into
    /// a live schema, where a row's parent has to be there first.
    pub fn sequential(&self) -> (b: bool)
        ensures
            b == self.moves_keys(),
    {
        self.key_move.is_some()
    }

    /// The tables to copy, each with the replica to copy it from: the replicas take
    /// turns.
    pub fn run(self) -> (out: Vec<(Table, usize)>)
        requires
            self.wf(),
        ensures
            out@.len() == self.spec_tables().len(),
            forall|i: int|
                0 <= i < out@.len() ==> (#[trigger] out@[i]).0 == self.spec_tables()[i]
                    && out@[i].1 == i % (self.spec_replicas() as int),
    {
        let replicas: usize = self.replicas;
        let ghost all = self.tables@;
        let total: usize = self.tables.len();
        let mut rest: Vec<Table> = self.tables;
        let mut out: Vec<(Table, usize)> = Vec::new();
        let mut i: usize = 0;
        assert(all.skip(0) =~= all);
        while rest.len() > 0
            invariant
                replicas > 0,
                total == all.len(),
                i + rest@.len() == total,
                rest@ == all.skip(i as int),
                out@.len() == i,
                forall|j: int|
                    0 <= j < i ==> (#[trigger] out@[j]).0 == all[j] && out@[j].1 == j % (
                    replicas as int),
            decreases rest.len(),
        {
            let table: Table = rest.remove(0);
            assert(table == all[i as int]);
            assert(rest@ =~= all.skip(i + 1));
            out.push((table, i % replicas));
            i += 1;
        }
        out
    }
}

} // verus!
