//! What each turn of a copy, a stream, a route and a restore comes to: what is done
//! next after what happened, in terms of what happened alone.

use vstd::arithmetic::power2::{lemma2_to64, pow2};
use vstd::prelude::*;

use super::context::{RouteAction, RouteEvent, Routed, Routing};
use super::data_sync::{DataSync, SyncAction, SyncEvent, SyncStage};
use super::error::{
    every_table, first_of_table, only_first, reports, BackendError, Error, ErrorResponse, PoolError,
    TableValidationError,
};
use super::messages::StatusUpdate;
use super::parallel_sync::{
    doublings, Cleanup, CopyAction, CopyEvent, ParallelSync, ParallelSyncView,
};
use super::publisher::{
    fault_among, fault_at, fault_views, faultless, is_fault, is_validation_of, lists_faults,
    Publisher, TableFault,
};
use super::schema_sync::{execute, StatementOutcome};
use super::stream::StreamSubscriber;
use super::stream_loop::{keepalive, LoopAction, LoopEvent, ReplicationLoop};
use super::table::{Table, TableView};
use super::write_laws::is_replicable;
use crate::schema::pg_dump::Statement;
use crate::sharded_tables::ShardedTables;

verus! {

/// Whether every table can be replicated.
pub open spec fn all_replicable(tables: Map<usize, Seq<TableView>>) -> bool {
    forall|shard: usize, i: int|
        #![trigger tables[shard][i]]
        tables.contains_key(shard) && 0 <= i < tables[shard].len() ==> is_replicable(
            tables[shard][i],
        )
}

proof fn lemma_faultless(tables: Map<usize, Seq<TableView>>)
    ensures
        faultless(tables) <==> all_replicable(tables),
{
    reveal_strlit("n");
    reveal_strlit("f");
    assert("n"@[0] != "f"@[0]);
    if !faultless(tables) {
        let f = choose|f: TableFault| #[trigger] is_fault(tables, f);
        let shard = choose|shard: usize| #[trigger]
            tables.contains_key(shard) && fault_among(tables[shard], f);
        let i = choose|i: int|
            0 <= i < tables[shard].len() && #[trigger] fault_at(tables[shard], i) == Some(f);
        assert(!is_replicable(tables[shard][i]));
    }
    if !all_replicable(tables) {
        let (shard, i) = choose|shard: usize, i: int|
            #![trigger tables[shard][i]]
            tables.contains_key(shard) && 0 <= i < tables[shard].len() && !is_replicable(
                tables[shard][i],
            );
        let found = fault_at(tables[shard], i);
        assert(found is Some);
        let f = found->0;
        assert(fault_at(tables[shard], i) == Some(f));
        assert(fault_among(tables[shard], f));
        assert(is_fault(tables, f));
    }
}

/// What a publication is checked for: it is in order where every table can be
/// replicated, and only there.
pub proof fn law_publications_are_checked(p: Publisher, out: Result<(), Error>)
    requires
        call_ensures(Publisher::validate, (&p,), out),
    ensures
        out is Ok <==> all_replicable(p@.tables),
        out matches Err(e) ==> e is TableValidation,
{
    lemma_faultless(p@.tables);
}

/// Once its tables are loaded, a copy creates the slot of the first shard, but only
/// where every table can be replicated and it was not called off: otherwise it fails,
/// and no slot has been created.
pub proof fn law_copies_are_checked_before_slots(
    s: &mut DataSync,
    p: &mut Publisher,
    rules: ShardedTables,
    tables: Vec<Vec<Table>>,
    cancelled: bool,
    action: SyncAction,
)
    requires
        call_ensures(
            DataSync::next,
            (s, p, &rules, (SyncEvent::Loaded { tables, cancelled })),
            action,
        ),
        old(s).copies,
        old(s).shards > 0,
    ensures
        final(p)@.slots == old(p)@.slots,
        action is CreateSlot || action is Fail,
        action is CreateSlot ==> {
            &&& action == (SyncAction::CreateSlot { shard: 0 })
            &&& final(s).stage == (SyncStage::Slots { shard: 0 })
            &&& all_replicable(final(p)@.tables)
            &&& !cancelled
        },
        action is Fail ==> final(s).stage == SyncStage::Finished,
        action matches SyncAction::Fail(e) ==> {
            ||| e is BroadcastNullColumnMissing
            ||| e is TableValidation && !all_replicable(final(p)@.tables)
            ||| e is DataSyncAborted && cancelled
        },
        final(s).shards == old(s).shards && final(s).copies == old(s).copies,
{
    lemma_faultless(final(p)@.tables);
}

/// Once its tables are loaded, a stream goes on at the slots that are there, or
/// creates them where there are none.
pub proof fn law_streams_use_the_slots_that_are_there(
    s: &mut DataSync,
    p: &mut Publisher,
    rules: ShardedTables,
    tables: Vec<Vec<Table>>,
    action: SyncAction,
)
    requires
        call_ensures(
            DataSync::next,
            (s, p, &rules, (SyncEvent::Loaded { tables, cancelled: false })),
            action,
        ),
        !old(s).copies,
        old(s).shards > 0,
        old(p)@.slots.dom().finite(),
        !(action is Fail),
    ensures
        if old(p)@.slots.dom() == Set::<usize>::empty() {
            &&& action == (SyncAction::CreateSlot { shard: 0 })
            &&& final(s).stage == (SyncStage::Slots { shard: 0 })
        } else {
            &&& action is StartShards
            &&& final(s).stage == (SyncStage::Shards { left: old(s).shards })
        },
        final(p)@.slots == old(p)@.slots,
{
    let slots = old(p)@.slots.dom();
    if slots.len() == 0 {
        assert(slots =~= Set::<usize>::empty());
    }
}

/// A slot that was created is kept with its position, and the next shard's is created
/// behind it. The shards are worked on, all of them, behind the last. Called off
/// before that, the copy ends.
pub proof fn law_slots_are_kept(
    s: &mut DataSync,
    p: &mut Publisher,
    rules: ShardedTables,
    shard: usize,
    lsn: i64,
    cancelled: bool,
    action: SyncAction,
)
    requires
        call_ensures(
            DataSync::next,
            (s, p, &rules, (SyncEvent::SlotCreated { lsn, cancelled })),
            action,
        ),
        old(s).stage == (SyncStage::Slots { shard }),
        shard < old(s).shards,
    ensures
        final(p)@.slots == old(p)@.slots.insert(shard, lsn),
        final(p)@.tables == old(p)@.tables,
        if shard + 1 < old(s).shards {
            if cancelled {
                action == SyncAction::Fail(Error::DataSyncAborted) && final(s).stage
                    == SyncStage::Finished
            } else {
                &&& action == (SyncAction::CreateSlot { shard: (shard + 1) as usize })
                &&& final(s).stage == (SyncStage::Slots { shard: (shard + 1) as usize })
            }
        } else {
            &&& action is StartShards
            &&& final(s).stage == (SyncStage::Shards { left: old(s).shards })
        },
        final(s).shards == old(s).shards,
{
}

/// A copy is done once every shard has been copied, and not before. What was copied is
/// what the shard has from then on.
pub proof fn law_copies_are_done_with_the_last_shard(
    s: &mut DataSync,
    p: &mut Publisher,
    rules: ShardedTables,
    shard: usize,
    tables: Vec<Table>,
    left: usize,
    action: SyncAction,
)
    requires
        call_ensures(
            DataSync::next,
            (s, p, &rules, (SyncEvent::Copied { shard, tables })),
            action,
        ),
        old(s).stage == (SyncStage::Shards { left }),
        left > 0,
    ensures
        action is Done <==> left == 1,
        action is Wait <==> left > 1,
        left > 1 ==> final(s).stage == (SyncStage::Shards { left: (left - 1) as usize }),
        left == 1 ==> final(s).stage == SyncStage::Finished,
        final(p)@.slots == old(p)@.slots,
        final(p)@.tables.contains_key(shard),
        final(p)@.tables[shard].len() == tables@.len(),
        forall|i: int|
            0 <= i < tables@.len() ==> (#[trigger] final(p)@.tables[shard][i]) == tables@[i]@,
        forall|other: usize|
            other != shard && old(p)@.tables.contains_key(other)
                ==> #[trigger] final(p)@.tables[other] == old(p)@.tables[other],
{
}

/// Whatever fails, ends a copy and nothing else.
pub proof fn law_failures_end_copies(
    s: &mut DataSync,
    p: &mut Publisher,
    rules: ShardedTables,
    e: Error,
    action: SyncAction,
)
    requires
        call_ensures(DataSync::next, (s, p, &rules, SyncEvent::Failed(e)), action),
    ensures
        action == SyncAction::Fail(e),
        final(s).stage == SyncStage::Finished,
        final(p)@ == old(p)@,
{
}

/// Whether a server said that it is going away, or is not there yet.
pub open spec fn server_is_away(response: ErrorResponse) -> bool {
    ||| response.code@ == "57P01"@
    ||| response.code@ == "57P02"@
    ||| response.code@ == "57P03"@
}

/// Whether a pool has nobody to hand out, for now.
pub open spec fn pool_is_short(e: PoolError) -> bool {
    e is NoPrimary || e is CheckoutTimeout || e is AllReplicasDown
}

/// An error may pass where it says that touch was lost, by the network, a pool or the
/// server; then the same again may succeed. No other error passes.
pub proof fn law_lost_touch_may_pass(e: Error)
    ensures
        e is NotConnected || e is NoPrimary || e is ReplicationTimeout || e is ParallelConnection
            || e is PipelineClosed ==> e.retryable(),
        e matches Error::Net(inner) ==> e.retryable() == (inner is Io || inner is UnexpectedEof),
        e matches Error::Pool(inner) ==> e.retryable() == pool_is_short(inner),
        e matches Error::PgError(inner) ==> e.retryable() == server_is_away(inner),
        e matches Error::Backend(inner) ==> e.retryable() == match inner {
            BackendError::Pool(pool) => pool_is_short(pool),
            BackendError::ExecutionError(response) => server_is_away(response),
            BackendError::ConnectionError(response) => server_is_away(response),
            _ => inner is Io || inner is ReadTimeout || inner is NotConnected
                || inner is ClusterNotConnected,
        },
        e matches Error::TwoPcCleanupPending { source, .. } ==> e.retryable()
            == source.retryable(),
        e.retryable() ==> e is NotConnected || e is NoPrimary || e is ReplicationTimeout
            || e is ParallelConnection || e is PipelineClosed || e is Net || e is Pool
            || e is PgError || e is Backend || e is TwoPcCleanupPending,
{
    reveal_with_fuel(Error::retryable, 2);
}

/// A stream that fails is tried again where the error may pass and the tries are not
/// used up; each try counts. Otherwise it ends with the error.
pub proof fn law_failed_streams_are_tried_again(
    l: &mut ReplicationLoop,
    e: Error,
    action: LoopAction,
)
    requires
        call_ensures(ReplicationLoop::next, (l, LoopEvent::Failed(e)), action),
        old(l).attempt < usize::MAX,
    ensures
        ({
            let again = e.retryable() && (old(l).max_attempts == 0 || old(l).attempt
                < old(l).max_attempts);
            &&& again ==> action is Reconnect && final(l).attempt == old(l).attempt + 1
            &&& !again ==> action == LoopAction::Fail(e) && final(l).attempt == old(l).attempt
        }),
        final(l).max_attempts == old(l).max_attempts,
        final(l).stopping == old(l).stopping,
{
}

/// A stream forgets its failures once a message was handled and, where there is
/// something to report, reported. It hears a request to stop once, drops its slot
/// once the source has nothing more, and goes on without the destination where that
/// may pass.
pub proof fn law_streams_go_on(l: &mut ReplicationLoop, event: LoopEvent, action: LoopAction)
    requires
        call_ensures(ReplicationLoop::next, (l, event), action),
    ensures
        event matches LoopEvent::Handled(Some(status)) ==> action == LoopAction::Report(status)
            && *final(l) == *old(l),
        event == LoopEvent::Handled(None) || event is Reported ==> action is Continue && *final(l)
            == (ReplicationLoop { attempt: 0, ..*old(l) }),
        event is StopRequested ==> final(l).stopping && final(l).attempt == old(l).attempt && (
        action is StopReplication <==> !old(l).stopping) && (action is Continue
            <==> old(l).stopping),
        event is Drained ==> action is DropSlot && *final(l) == *old(l),
        event is CopyDone ==> action is Continue && *final(l) == *old(l),
        event matches LoopEvent::ReconnectFailed(e) ==> *final(l) == *old(l) && (if e.retryable() {
            action is ResetConnections
        } else {
            action == LoopAction::Fail(e)
        }),
        !(event is StopRequested) ==> final(l).stopping == old(l).stopping,
{
}

/// Where the source stands moves the position along between transactions, and never
/// inside of one. The source is answered where it asks for it, or where the position
/// has moved, with the position that has been committed.
pub proof fn law_keepalives_are_answered(
    stream: &mut StreamSubscriber,
    wal_end: i64,
    asked: bool,
    now: i64,
    status: Option<StatusUpdate>,
)
    requires
        call_ensures(keepalive, (stream, wal_end, asked, now), status),
    ensures
        ({
            let s = old(stream)@;
            let t = final(stream)@;
            &&& s.in_transaction ==> t == s
            &&& !s.in_transaction ==> t.lsn == wal_end && t.committed_lsn == wal_end
                && t.table_lsns == s.table_lsns && t.tables == s.tables && t.statements
                == s.statements && t.connections == s.connections
            &&& status is Some <==> asked || (!s.in_transaction && wal_end != s.lsn)
            &&& status matches Some(told) ==> {
                &&& told.last_applied == t.committed_lsn
                &&& told.last_flushed == t.committed_lsn
                &&& told.last_written == t.committed_lsn
                &&& told.system_clock == now
                &&& told.reply == 0
            }
        }),
{
}

/// A change goes where its statement was routed once all of its sharding keys are
/// known, with the parameters it was routed by. Keys that are not known are looked up
/// once; what is not known then, and what is no query, can't be routed.
pub proof fn law_rows_are_placed_by_known_keys(
    r: &mut Routing,
    pending: usize,
    routed: Routed,
    action: RouteAction,
)
    requires
        call_ensures(Routing::next, (r, (RouteEvent::Routed { pending, routed })), action),
    ensures
        action is Resolve <==> pending > 0 && !old(r)@.resolved,
        action is Done <==> pending == 0 && routed is Query,
        action matches RouteAction::Done(context) ==> context.spec_shard() == routed->Query_0@
            && context.spec_bind() == old(r)@.bind,
        action is Failed <==> (pending > 0 && old(r)@.resolved) || (pending == 0
            && routed is Other),
        action matches RouteAction::Failed(e) ==> (e is Lookup <==> pending > 0) && (
        e is IncorrectCommand <==> pending == 0),
        final(r)@ == old(r)@,
{
}

/// Once the keys were looked up, the statement is routed once more; a key that can't
/// be looked up, and a statement that can't be routed, end the route.
pub proof fn law_lookups_are_followed_by_a_route(
    r: &mut Routing,
    event: RouteEvent,
    action: RouteAction,
)
    requires
        call_ensures(Routing::next, (r, event), action),
        !(event is Routed),
    ensures
        event is Resolved ==> action is Route && final(r)@.resolved,
        event matches RouteEvent::LookupFailed(message) ==> action == RouteAction::Failed(
            Error::Lookup(message),
        ),
        event matches RouteEvent::RouteFailed(e) ==> action == RouteAction::Failed(e),
        final(r)@.bind == old(r)@.bind,
{
}

/// A copy that failed is tried again where the error may pass and another copy is
/// allowed. The wait is the first delay, doubled for each failure before, five times
/// at most. What the failed copy left is looked for, or deleted where keys move.
pub proof fn law_failed_copies_are_tried_again(
    s: &mut ParallelSync,
    e: Error,
    action: CopyAction,
)
    requires
        call_ensures(ParallelSync::next, (s, CopyEvent::Failed(e)), action),
        old(s)@.wf(),
        old(s)@.awaits(CopyEvent::Failed(e)),
    ensures
        ({
            let again = e.retryable() && old(s)@.attempt + 1 < old(s)@.max_retries;
            &&& again <==> action is Retry
            &&& !again ==> action == (CopyAction::Fail { error: e, probe: !old(s)@.key_move })
                && final(s)@ == old(s)@
            &&& action matches CopyAction::Retry { delay, wait_for, cleanup } ==> {
                &&& final(s)@.attempt == old(s)@.attempt + 1
                &&& final(s)@.error == Some(e)
                &&& delay == old(s)@.base_delay * (match old(s)@.attempt {
                    0 => 1int,
                    1 => 2,
                    2 => 4,
                    3 => 8,
                    4 => 16,
                    _ => 32,
                })
                &&& cleanup == (if old(s)@.key_move {
                    Cleanup::DeleteMovedRows
                } else {
                    Cleanup::ProbeRows
                })
                &&& match e {
                    Error::TwoPcCleanupPending { transaction, .. } => wait_for
                        == (if old(s)@.two_pc {
                        Some(transaction)
                    } else {
                        None
                    }),
                    _ => wait_for is None,
                }
            }
        }),
{
    lemma2_to64();
    let v = old(s)@;
    let factor = pow2(doublings(v.attempt as nat));
    assert(factor <= 32);
    assert(v.base_delay as nat * factor <= v.base_delay * 32) by (nonlinear_arith)
        requires
            factor <= 32,
            v.base_delay >= 0,
    ;
}

/// A copy that succeeded is done. Behind a failure, the table is copied again once no
/// row is in the way: where rows are left, the copy ends with the failure that left
/// them, and where they could not be deleted, with that.
pub proof fn law_copies_go_on_where_nothing_is_left(
    s: &mut ParallelSync,
    event: CopyEvent,
    action: CopyAction,
)
    requires
        call_ensures(ParallelSync::next, (s, event), action),
        old(s)@.wf(),
        old(s)@.awaits(event),
        !(event is Failed),
    ensures
        action is Done <==> event is Copied,
        action is Copy <==> event is Deleted || event == (CopyEvent::Probed { rows: false }),
        event == (CopyEvent::Probed { rows: true }) ==> action == (CopyAction::Fail {
            error: old(s)@.error->0,
            probe: false,
        }),
        event matches CopyEvent::DeleteFailed(e) ==> action == (CopyAction::Fail {
            error: e,
            probe: false,
        }),
        final(s)@.attempt == old(s)@.attempt,
        !(event is Copied) ==> final(s)@.error is None,
{
}

/// A statement that the destination already has the result of is passed over where
/// the statement allows for it. Another error of the statement is passed over only
/// where errors are ignored, and an error of the connection never.
pub proof fn law_restores_pass_over_what_is_there(
    result: Result<(), BackendError>,
    statement: Statement,
    ignores: bool,
    out: Result<StatementOutcome, Error>,
)
    requires
        call_ensures(execute, (result, &statement, ignores), out),
    ensures
        result is Ok <==> (out is Ok && out->Ok_0 is Applied),
        result matches Err(BackendError::ExecutionError(response)) ==> {
            let there = response.code@ == "42P16"@ || response.code@ == "42710"@ || response.code@
                == "42809"@ || response.code@ == "42P07"@;
            if statement.skip_if_exists && there {
                out matches Ok(StatementOutcome::Skipped)
            } else if ignores {
                out matches Ok(StatementOutcome::Failed(text))
            } else {
                out == Err::<StatementOutcome, Error>(Error::Backend(result->Err_0))
            }
        },
        result is Err && !(result->Err_0 is ExecutionError) ==> out == Err::<
            StatementOutcome,
            Error,
        >(Error::Backend(result->Err_0)),
{
}

/// Whether an error names a table as one that can't be replicated.
pub open spec fn names_table(e: Error, table: Seq<char>) -> bool {
    e matches Error::TableValidation(found) && exists|k: int|
        0 <= k < found.0@.len() && (#[trigger] found.0@[k]).table_name@ == table
}

proof fn lemma_every_table(
    out: Seq<TableValidationError>,
    errors: Seq<TableValidationError>,
    e: int,
) -> (n: int)
    requires
        every_table(out, errors),
        0 <= e < errors.len(),
    ensures
        0 <= n < out.len(),
        out[n].table_name@ == errors[e].table_name@,
{
    reveal(every_table);
    let name = errors[e].table_name@;
    choose|n: int| 0 <= n < out.len() && (#[trigger] out[n]).table_name@ == name
}

proof fn lemma_only_first(
    out: Seq<TableValidationError>,
    errors: Seq<TableValidationError>,
    k: int,
) -> (e: int)
    requires
        only_first(out, errors),
        0 <= k < out.len(),
    ensures
        0 <= e < errors.len(),
        errors[e] == out[k],
{
    reveal(only_first);
    let found = out[k];
    choose|e: int|
        #![trigger first_of_table(errors, e)]
        first_of_table(errors, e) && errors[e] == found
}

/// Every table that can't be replicated is named, once each, and no other table is.
pub proof fn law_unfit_tables_are_named(
    p: Publisher,
    out: Result<(), Error>,
    shard: usize,
    i: int,
    k: int,
)
    requires
        call_ensures(Publisher::validate, (&p,), out),
        out is Err,
    ensures
        p@.tables.contains_key(shard) && 0 <= i < p@.tables[shard].len() && !is_replicable(
            p@.tables[shard][i],
        ) ==> names_table(out->Err_0, p@.tables[shard][i].table.text()),
        out->Err_0 matches Error::TableValidation(found) ==> (0 <= k < found.0@.len() ==> exists|
            s: usize,
            j: int,
        |
            #![trigger p@.tables[s][j]]
            p@.tables.contains_key(s) && 0 <= j < p@.tables[s].len() && !is_replicable(
                p@.tables[s][j],
            ) && p@.tables[s][j].table.text() == found.0@[k].table_name@),
{
    reveal_strlit("n");
    reveal_strlit("f");
    assert("n"@[0] != "f"@[0]);
    let tables = p@.tables;
    if let Error::TableValidation(found) = out->Err_0 {
        let errors = choose|errors: Seq<TableValidationError>| #[trigger]
            reports(found.0@, errors) && lists_faults(errors, tables);
        assert(is_validation_of(out->Err_0, tables));
        assert(reports(found.0@, errors) && lists_faults(errors, tables));
        assert(fault_views(errors).len() == errors.len());
        if tables.contains_key(shard) && 0 <= i < tables[shard].len() && !is_replicable(
            tables[shard][i],
        ) {
            let f = fault_at(tables[shard], i)->0;
            assert(fault_at(tables[shard], i) == Some(f));
            assert(fault_among(tables[shard], f));
            assert(is_fault(tables, f));
            assert(fault_views(errors).contains(f));
            let e = fault_views(errors).index_of(f);
            assert(fault_views(errors)[e] == (errors[e].table_name@, errors[e].kind));
            let n = lemma_every_table(found.0@, errors, e);
            assert(found.0@[n].table_name@ == tables[shard][i].table.text());
        }
        if 0 <= k < found.0@.len() {
            let e = lemma_only_first(found.0@, errors, k);
            let f = (errors[e].table_name@, errors[e].kind);
            assert(fault_views(errors)[e] == f);
            assert(fault_views(errors).contains(f));
            assert(is_fault(tables, f));
            let s = choose|s: usize| #[trigger] tables.contains_key(s) && fault_among(tables[s], f);
            let j = choose|j: int|
                0 <= j < tables[s].len() && #[trigger] fault_at(tables[s], j) == Some(f);
            assert(!is_replicable(tables[s][j]));
        }
    }
}

/// Where a shard's tables can't be loaded, the copy ends and creates no slot: with that
/// error, or with the column that a table before it lacks.
pub proof fn law_loads_that_fail_end_copies(
    s: &mut DataSync,
    p: &mut Publisher,
    rules: ShardedTables,
    tables: Vec<Vec<Table>>,
    error: Error,
    action: SyncAction,
)
    requires
        call_ensures(
            DataSync::next,
            (s, p, &rules, (SyncEvent::LoadFailed { tables, error })),
            action,
        ),
    ensures
        final(s).stage == SyncStage::Finished,
        final(p)@.slots == old(p)@.slots,
        action is Fail,
        action matches SyncAction::Fail(e) ==> e == error || e is BroadcastNullColumnMissing,
        action matches SyncAction::Fail(e) ==> ((forall|n: int, i: int|
            0 <= n < tables@.len() && 0 <= i < tables@[n]@.len()
                ==> !super::publishing_laws::lacks_filter_column(
                old(p)@.hybrid_tables,
                (#[trigger] tables@[n]@[i])@,
            )) ==> e == error),
{
    super::publishing_laws::lemma_load_fails(
        old(p)@.tables,
        old(p)@.hybrid_tables,
        old(s).copies,
        rules,
        tables@,
        tables@.len(),
    );
}

/// A copy is tried again where the error may pass and the copies that failed, this one
/// counted, are fewer than allowed.
pub proof fn law_the_last_copy_is_not_tried_again(s: ParallelSyncView, e: Error)
    requires
        s.attempt < usize::MAX,
    ensures
        s.on(CopyEvent::Failed(e)).1 is Retry <==> e.retryable() && s.attempt + 1 < s.max_retries,
        s.on(CopyEvent::Failed(e)).1 is Fail <==> !(s.on(CopyEvent::Failed(e)).1 is Retry),
        s.on(CopyEvent::Failed(e)).1 is Retry ==> s.on(CopyEvent::Failed(e)).0.attempt == s.attempt
            + 1,
{
}

} // verus!
