//! What holds of the subscriber whatever the stream and the shards do.

use std::sync::Arc;
use vstd::prelude::*;

use super::messages::{Begin, DeleteView, IdentityView, InsertView, PayloadView, UpdateView};
use super::routing::OmniOwnership;
use super::stream::{
    initial, keyed_by_name, table_map, ActionView, EventView, Fault, State, Step, TaskView,
};
use super::table::{KeyView, Table};
use super::tuple::ColumnView;
use crate::cluster::Cluster;

verus! {

/// Whether a step leaves the position that is reported to the source where it
/// was.
pub open spec fn keeps_reported(before: State, step: Step) -> bool {
    step.0.committed_lsn == before.committed_lsn
}

/// The position that is reported to the source moves with the commit of every
/// shard and with nothing else: no message moves it.
pub proof fn law_messages_do_not_report(s: State, payload: Option<PayloadView>, size: usize)
    ensures
        keeps_reported(s, s.on_data(payload, size)),
{
}

/// The position that is reported to the source moves with the commit of every
/// shard, to the end of the transaction that was committed, and with nothing
/// else.
pub proof fn law_only_commits_report(s: State, event: EventView)
    requires
        s.awaits(event),
    ensures
        match (s.task, event) {
            (TaskView::Sync { end_lsn }, EventView::Synced { .. }) => s.on_event(
                event,
            ).0.committed_lsn == end_lsn,
            _ => keeps_reported(s, s.on_event(event)),
        },
{
}

/// The shards are told to commit only once every one of them has answered all
/// that was sent: all of them commit a transaction, or none is told to.
pub proof fn law_commit_follows_drain(s: State, event: EventView)
    requires
        s.awaits(event),
    ensures
        s.on_event(event).1 is Sync <==> s.task is Drain && event is Drained,
{
}

/// A message never makes the shards commit by itself.
pub proof fn law_messages_do_not_commit(s: State, payload: Option<PayloadView>, size: usize)
    ensures
        !(s.on_data(payload, size).1 is Sync),
{
}

/// A failure drops every connection and all that came over it, whatever was going
/// on. Neither the position that is reported nor those of the tables move.
pub proof fn law_failure_clears(s: State, fault: Fault)
    requires
        s.awaits(EventView::Failed(fault)),
    ensures
        ({
            let (after, action) = s.on_event(EventView::Failed(fault));
            &&& action == ActionView::Failed(fault)
            &&& after.connections == 0
            &&& after.relations == Map::<u32, super::table::KeyView>::empty()
            &&& after.statements == Map::<u32, super::statements::StatementsView>::empty()
            &&& after.keys == Map::<super::table::KeyView, u32>::empty()
            &&& after.changed_tables == Set::<u32>::empty()
            &&& !after.in_transaction
            &&& after.task is Idle
            &&& after.committed_lsn == s.committed_lsn
            &&& after.table_lsns == s.table_lsns
            &&& after.tables == s.tables
        }),
{
}

/// A change at or before the position up to which its table has been applied is
/// passed over: nothing is done and nothing but the byte count moves.
pub proof fn law_applied_changes_are_skipped(
    s: State,
    oid: u32,
    row: Seq<ColumnView>,
    identity: IdentityView,
    key: Option<Seq<ColumnView>>,
    old: Option<Seq<ColumnView>>,
)
    requires
        s.applied(oid),
    ensures
        s.on_insert(InsertView { oid, row }) == s.finished(None),
        s.on_update(UpdateView { oid, identity, new: row }) == s.finished(None),
        s.on_delete(DeleteView { oid, key, old }, None) == s.finished(None),
        s.finished(None).1 == ActionView::Done(None),
{
}

/// A change in an open transaction does not make later changes of the same
/// transaction look as if they had been applied.
pub proof fn law_transaction_does_not_skip_itself(s: State, oid: u32, other: u32)
    requires
        s.in_transaction,
    ensures
        s.marked(oid).applied(other) == s.applied(other),
{
}

/// A transaction that every shard has committed is passed over when the source
/// sends it again: each table that it changed counts as applied from its start
/// on.
pub proof fn law_committed_transactions_are_skipped(
    s: State,
    end_lsn: i64,
    now: i64,
    again: Begin,
    oid: u32,
)
    requires
        s.changed_tables.contains(oid),
        again.final_transaction_lsn <= s.lsn,
    ensures
        ({
            let committed = s.on_synced(end_lsn, now).0;
            committed.on_begin(again).0.applied(oid)
        }),
{
}

/// A commit moves the tables that the transaction changed to its position and
/// leaves the others where they were.
pub proof fn law_commit_moves_changed_tables(s: State, end_lsn: i64, now: i64, oid: u32)
    ensures
        ({
            let after = s.on_synced(end_lsn, now).0;
            &&& s.changed_tables.contains(oid) ==> after.table_lsns.contains_key(oid)
                && after.table_lsns[oid] == s.lsn
            &&& !s.changed_tables.contains(oid) ==> after.table_lsns.contains_key(oid)
                == s.table_lsns.contains_key(oid) && (s.table_lsns.contains_key(oid)
                ==> after.table_lsns[oid] == s.table_lsns[oid])
            &&& after.changed_tables == Set::<u32>::empty()
            &&& !after.in_transaction
            &&& after.committed_lsn == end_lsn
        }),
{
}

/// A row with a value in the column that has to be NULL is never written: an
/// insert of it is passed over, and an update to it is a delete or fails.
pub proof fn law_keyed_rows_are_not_written(s: State, oid: u32, row: Seq<ColumnView>)
    requires
        s.member(oid, row) == Some(false),
        !s.applied(oid),
    ensures
        s.on_insert(InsertView { oid, row }).1 == ActionView::Done(None),
        ({
            let action = s.on_update(
                UpdateView { oid, identity: IdentityView::Nothing, new: row },
            ).1;
            action matches ActionView::Route { parse, .. } ==> parse == s.statements[oid].delete
        }),
{
}

/// Every message that is handled adds its size to the bytes, and nothing else
/// does.
pub proof fn law_bytes_follow_messages(s: State, event: EventView)
    requires
        s.awaits(event),
        s.task !is Connect,
    ensures
        ({
            let (after, action) = s.on_event(event);
            if action is Done {
                after.bytes_sharded == s.bytes_sharded.wrapping_add(s.size)
            } else {
                after.bytes_sharded == s.bytes_sharded
            }
        }),
{
}

/// What a subscriber waits for after a step is what the step asked for: an
/// answer to the action, or nothing where the message has been handled.
pub open spec fn waits_for(step: Step) -> bool {
    match step.1 {
        ActionView::Connect => step.0.task is Connect,
        ActionView::Prepare(_) => step.0.task is Prepare || step.0.task is Shape,
        ActionView::Route { binds, .. } => (step.0.task is Write && binds.len() == 1) || (
        step.0.task is Move && binds.len() == 2),
        ActionView::Send(_) => step.0.task is Sent,
        ActionView::Drain => step.0.task is Drain,
        ActionView::Sync => step.0.task is Sync,
        ActionView::Done(_) => step.0.task is Idle,
        ActionView::Failed(_) => step.0.task is Idle,
    }
}

/// After a message, the subscriber waits for the answer to what it asked for.
#[verifier::rlimit(60)]
pub proof fn law_messages_wait_for_answers(s: State, payload: Option<PayloadView>, size: usize)
    ensures
        waits_for(s.on_data(payload, size)),
{
}

/// After an answer, the subscriber waits for the answer to what it asked for next.
#[verifier::rlimit(60)]
pub proof fn law_answers_wait_for_answers(s: State, event: EventView)
    requires
        s.awaits(event),
    ensures
        waits_for(s.on_event(event)),
{
}

/// A new subscriber knows every table under its own schema and name.
pub proof fn law_tables_are_keyed_by_name(
    cluster: Arc<Cluster>,
    tables: Seq<Table>,
    partition: OmniOwnership,
)
    ensures
        keyed_by_name(initial(cluster, tables, partition)),
    decreases tables.len(),
{
    if tables.len() > 0 {
        law_tables_are_keyed_by_name(cluster, tables.drop_last(), partition);
        let before = table_map(tables.drop_last());
        assert forall|k: KeyView| #[trigger]
            table_map(tables).contains_key(k) implies table_map(tables)[k].table.schema == k.schema
            && table_map(tables)[k].table.name == k.name by {
            if before.contains_key(k) {
                let one = initial(cluster, tables.drop_last(), partition);
                assert(one.tables.contains_key(k));
            }
        }
    }
}

/// No message changes which tables a subscriber knows.
pub proof fn law_messages_keep_tables(s: State, payload: Option<PayloadView>, size: usize)
    ensures
        s.on_data(payload, size).0.tables == s.tables,
{
}

/// No answer changes which tables a subscriber knows.
pub proof fn law_answers_keep_tables(s: State, event: EventView)
    ensures
        s.on_event(event).0.tables == s.tables,
{
}

} // verus!
