//! What the answers of the shards lead to: which writes are sent once a row has been
//! routed, what is remembered once they were taken, and that no change is lost.

use std::sync::Arc;
use vstd::prelude::*;

use super::change_laws::{
    can_take, carries, deleted, has_news, inserted, is_news, is_table, is_whole, only_remembers,
    passes_filter, put_statement, remembers, starts_shape, starts_write, unfiltered, untouched,
    updated, without_toasted,
};
use super::messages::{
    Begin, Commit, DeleteView, IdentityView, InsertView, PayloadView, RelationView,
};
use super::presence::presence_of;
use super::routing::{law_writes_go_where_they_are_meant_to, OmniOwnership, ShardView};
use super::statements::{ParseView, StatementsView};
use super::stream::{
    first_named, initial, ActionView, EventView, Fault, State, Step, TaskView, WriteView,
};
use super::table::{KeyView, PublicationTableColumn, Table, TableView};
use super::tuple::{BindView, ColumnView, Identifier};
use crate::cluster::Cluster;

verus! {

/// Whether a shard is one that a route means.
pub open spec fn is_meant(
    route: ShardView,
    connections: usize,
    share: OmniOwnership,
    shard: usize,
) -> bool {
    shard < connections && match route {
        ShardView::Direct(direct) if connections > 1 => shard == direct,
        ShardView::Multi(shards) if connections > 1 => shards.contains(shard),
        _ => share.sources > 0 && shard % share.sources == share.source,
    }
}

/// Whether a write puts the parameters given to the shards of a route.
pub open spec fn is_write(
    s: State,
    write: WriteView,
    bind: BindView,
    route: ShardView,
    counts: bool,
) -> bool {
    &&& write.bind == bind
    &&& write.direct == (route is Direct && counts)
    &&& forall|j: int, k: int| 0 <= j < k < write.targets.len() ==> write.targets[j]
        < write.targets[k]
    &&& forall|shard: usize| #[trigger]
        write.targets.contains(shard) <==> is_meant(route, s.connections, s.partition, shard)
}

/// Whether a write puts a row to the shards of a route, by a statement.
pub open spec fn writes_row(
    s: State,
    write: WriteView,
    parse: ParseView,
    row: Seq<ColumnView>,
    route: ShardView,
) -> bool {
    is_write(s, write, write.bind, route, true) && carries(write.bind, parse, row)
}

/// Whether a step sends writes, and waits for them.
pub open spec fn sends(s: State, step: Step, oid: u32, then: Option<InsertView>) -> bool {
    &&& untouched(s, step.0)
    &&& step.1 is Send
    &&& step.0.task == (TaskView::Sent { oid, then })
}

proof fn lemma_write(s: State, route: ShardView, bind: BindView, counts: bool)
    ensures
        is_write(s, s.write(route, bind, counts), bind, route, counts),
{
    let write = s.write(route, bind, counts);
    assert forall|shard: usize| #[trigger]
        write.targets.contains(shard) <==> is_meant(route, s.connections, s.partition, shard) by {
        law_writes_go_where_they_are_meant_to(route, s.connections as nat, s.partition, shard);
    }
    law_writes_go_where_they_are_meant_to(route, s.connections as nat, s.partition, 0);
}

/// A row that waited for its route is sent to the shards of that route, once and with
/// the parameters it was routed with.
pub proof fn law_routed_rows_are_sent(
    s: State,
    oid: u32,
    bind: BindView,
    counts: bool,
    then: Option<InsertView>,
    route: ShardView,
)
    requires
        s.task == (TaskView::Write { oid, bind, track_missed: counts, then }),
    ensures
        ({
            let step = s.on_event(EventView::Routed(seq![route]));
            &&& sends(s, step, oid, then)
            &&& step.1 matches ActionView::Send(writes) && {
                &&& writes.len() == 1
                &&& is_write(s, writes[0], bind, route, counts)
            }
        }),
{
    lemma_write(s, route, bind, counts);
}

/// Once its writes were taken, a change is remembered as applied, and that is all of
/// it, unless an insert was to follow.
pub proof fn law_sent_changes_are_remembered(s: State, oid: u32)
    requires
        s.task == (TaskView::Sent { oid, then: None }),
    ensures
        ({
            let step = s.on_event(EventView::Sent);
            &&& step.1 == ActionView::Done(None)
            &&& step.0.task is Idle
            &&& remembers(s, step.0, oid)
        }),
{
}

/// The insert behind a delete is written once the delete was taken: in a transaction
/// the delete does not hide it.
pub proof fn law_inserts_follow_deletes(s: State, oid: u32, row: Seq<ColumnView>)
    requires
        s.task == (TaskView::Sent { oid, then: Some(InsertView { oid, row }) }),
        s.in_transaction,
        s.statements.contains_key(oid),
        is_news(s, oid),
    ensures
        ({
            let step = s.on_event(EventView::Sent);
            let marked = State { changed_tables: s.changed_tables.insert(oid), ..s };
            if passes_filter(s, oid, row) {
                starts_write(marked, step, oid, put_statement(s, oid), row, true, None)
            } else {
                only_remembers(s, step, oid)
            }
        }),
{
    let marked = State { changed_tables: s.changed_tables.insert(oid), ..s };
    if !passes_filter(s, oid, row) {
        assert(marked.changed_tables.insert(oid) =~= marked.changed_tables);
    }
}

/// From the message to its end: an update that keeps the identity and carries every
/// column is routed, then sent to the shards of its route as the update of its table
/// with exactly the new row, then remembered.
pub proof fn law_whole_updates_arrive(
    s: State,
    oid: u32,
    new: Seq<ColumnView>,
    size: usize,
    route: ShardView,
)
    requires
        can_take(s, oid),
        unfiltered(s, oid),
        is_whole(new),
    ensures
        ({
            let asked = s.on_data(updated(oid, IdentityView::Nothing, new), size).0;
            let sent = asked.on_event(EventView::Routed(seq![route]));
            let done = sent.0.on_event(EventView::Sent);
            &&& sent.1 matches ActionView::Send(writes) && {
                &&& writes.len() == 1
                &&& writes_row(s, writes[0], s.statements[oid].update, new, route)
            }
            &&& done.1 == ActionView::Done(None)
            &&& remembers(s, done.0, oid)
        }),
{
    let asked = s.on_data(updated(oid, IdentityView::Nothing, new), size).0;
    if let TaskView::Write { oid: o, bind, track_missed, then } = asked.task {
        law_routed_rows_are_sent(asked, o, bind, track_missed, then, route);
    }
}

/// From the message to its end: an inserted row is routed, sent to the shards of its
/// route, and remembered.
pub proof fn law_inserts_arrive(
    s: State,
    oid: u32,
    row: Seq<ColumnView>,
    size: usize,
    route: ShardView,
)
    requires
        can_take(s, oid),
        passes_filter(s, oid, row),
    ensures
        ({
            let asked = s.on_data(inserted(oid, row), size).0;
            let sent = asked.on_event(EventView::Routed(seq![route]));
            let done = sent.0.on_event(EventView::Sent);
            &&& sent.1 matches ActionView::Send(writes) && {
                &&& writes.len() == 1
                &&& writes_row(s, writes[0], put_statement(s, oid), row, route)
            }
            &&& done.1 == ActionView::Done(None)
            &&& remembers(s, done.0, oid)
        }),
{
    let asked = s.on_data(inserted(oid, row), size).0;
    if let TaskView::Write { oid: o, bind, track_missed, then } = asked.task {
        law_routed_rows_are_sent(asked, o, bind, track_missed, then, route);
    }
}

/// A statement for the columns that were sent is remembered for the next row of its
/// kind once it is prepared, and the row that asked for it is written: routed where
/// its shard is not known, sent where it is.
pub proof fn law_prepared_shapes_are_used(
    s: State,
    oid: u32,
    mask: Seq<bool>,
    statement: ParseView,
    bind: BindView,
    shard: Option<ShardView>,
)
    requires
        s.task == (TaskView::Shape { oid, mask, statement, bind, shard }),
        s.statements.contains_key(oid),
    ensures
        ({
            let step = s.on_event(EventView::Prepared);
            let t = step.0;
            &&& t.statements.dom() == s.statements.dom()
            &&& forall|other: u32|
                other != oid && s.statements.contains_key(other) ==> #[trigger] t.statements[other]
                    == s.statements[other]
            &&& t.statements[oid].update_shapes == s.statements[oid].update_shapes.insert(
                mask,
                statement,
            )
            &&& t.statements[oid] == (StatementsView {
                update_shapes: t.statements[oid].update_shapes,
                ..s.statements[oid]
            })
            &&& untouched(State { statements: t.statements, ..s }, t)
            &&& match shard {
                Some(route) => {
                    &&& t.task == (TaskView::Sent { oid, then: None })
                    &&& step.1 matches ActionView::Send(writes) && {
                        &&& writes.len() == 1
                        &&& is_write(s, writes[0], bind, route, true)
                    }
                },
                None => {
                    &&& t.task == (TaskView::Write { oid, bind, track_missed: true, then: None })
                    &&& step.1 == (ActionView::Route { binds: seq![bind], parse: statement })
                },
            }
        }),
{
    if let Some(route) = shard {
        lemma_write(s, route, bind, true);
        let known = s.on_event(EventView::Prepared).0;
        lemma_write(known, route, bind, true);
    }
    let t = s.on_event(EventView::Prepared).0;
    assert(t.statements.dom() =~= s.statements.dom());
}

/// Where the two rows of an update have been routed apart, the row before it is
/// deleted from its shards and the whole new row is inserted into its own, in this
/// order.
pub proof fn law_rows_routed_apart_are_moved(
    s: State,
    oid: u32,
    new: Seq<ColumnView>,
    old: Seq<ColumnView>,
    complete: Seq<ColumnView>,
    to: ShardView,
    from: ShardView,
)
    requires
        s.task == (TaskView::Move { oid, new, old, complete }),
        s.statements.contains_key(oid),
        to != from,
    ensures
        ({
            let step = s.on_event(EventView::Routed(seq![to, from]));
            &&& sends(s, step, oid, None)
            &&& step.1 matches ActionView::Send(writes) && {
                &&& writes.len() == 2
                &&& writes_row(s, writes[0], s.statements[oid].delete, old, from)
                &&& writes_row(s, writes[1], s.statements[oid].insert, complete, to)
            }
        }),
{
    let step = s.on_event(EventView::Routed(seq![to, from]));
    if let ActionView::Send(writes) = step.1 {
        lemma_write(s, from, writes[0].bind, true);
        lemma_write(s, to, writes[1].bind, true);
    }
}

/// Where the two rows of an update go to the same shards, the row is updated there,
/// found by the row before it: with all the new values where they were sent, with
/// those that were sent otherwise.
pub proof fn law_rows_routed_together_are_updated(
    s: State,
    oid: u32,
    new: Seq<ColumnView>,
    old: Seq<ColumnView>,
    complete: Seq<ColumnView>,
    table: TableView,
    to: ShardView,
)
    requires
        s.task == (TaskView::Move { oid, new, old, complete }),
        s.statements.contains_key(oid),
        is_table(s, oid, table),
        new.len() == table.columns.len(),
    ensures
        ({
            let step = s.on_event(EventView::Routed(seq![to, to]));
            let shapes = s.statements[oid].update_shapes;
            let mask = presence_of(new, table.columns);
            if is_whole(new) {
                &&& sends(s, step, oid, None)
                &&& step.1 matches ActionView::Send(writes) && {
                    &&& writes.len() == 1
                    &&& writes_row(s, writes[0], s.statements[oid].update, old + new, to)
                }
            } else if !has_news(new, table) {
                only_remembers(s, step, oid)
            } else if shapes.contains_key(mask) {
                &&& sends(s, step, oid, None)
                &&& step.1 matches ActionView::Send(writes) && {
                    &&& writes.len() == 1
                    &&& writes_row(s, writes[0], shapes[mask], old + without_toasted(new), to)
                }
            } else {
                starts_shape(
                    s,
                    step,
                    oid,
                    mask,
                    table.update_full_identity_partial_set_sql(mask),
                    old + without_toasted(new),
                    Some(to),
                )
            }
        }),
{
    super::change_laws::lemma_without(new);
    super::change_laws::lemma_news(new, table);
    let step = s.on_event(EventView::Routed(seq![to, to]));
    if let ActionView::Send(writes) = step.1 {
        lemma_write(s, to, writes[0].bind, true);
    }
    if !is_whole(new) {
        let i = choose|i: int|
            0 <= i < new.len() && (#[trigger] new[i]).identifier == Identifier::Toasted;
        assert(new[i].identifier == Identifier::Toasted);
    }
}

/// No change is lost: of a table whose rows are written whatever their key, a change
/// that has not been applied ends without a write only where there is nothing to
/// write, which is an update without a new value outside the identity, or a delete
/// without a key.
pub proof fn law_no_change_is_lost(
    s: State,
    oid: u32,
    row: Seq<ColumnView>,
    key: Option<Seq<ColumnView>>,
    old: Option<Seq<ColumnView>>,
    identity: IdentityView,
    table: TableView,
    size: usize,
)
    requires
        can_take(s, oid),
        unfiltered(s, oid),
        is_table(s, oid, table),
    ensures
        !(s.on_data(inserted(oid, row), size).1 is Done),
        s.on_data(deleted(oid, key, old), size).1 is Done ==> key is None
            && !s.statements[oid].full_identity,
        s.on_data(updated(oid, identity, row), size).1 is Done ==> !has_news(row, table),
{
    let step = s.on_data(updated(oid, identity, row), size);
    if step.1 is Done {
        if let IdentityView::Nothing = identity {
            super::change_laws::lemma_news(row, table);
        }
    }
}

/// A change that the destination has already is left aside, and so is one of a table
/// without statements, which is remembered.
pub proof fn law_known_changes_are_left_aside(
    s: State,
    oid: u32,
    row: Seq<ColumnView>,
    key: Option<Seq<ColumnView>>,
    old: Option<Seq<ColumnView>>,
    identity: IdentityView,
    size: usize,
)
    requires
        s.connections > 0,
        !is_news(s, oid) || !s.statements.contains_key(oid),
    ensures
        forall|payload: Option<PayloadView>|
            payload == inserted(oid, row) || payload == deleted(oid, key, old) || payload
                == updated(oid, identity, row) ==> {
                let step = #[trigger] s.on_data(payload, size);
                if is_news(s, oid) {
                    only_remembers(s, step, oid)
                } else {
                    &&& step.1 == ActionView::Done(None)
                    &&& step.0.task is Idle
                    &&& untouched(s, step.0)
                }
            },
{
}

/// What the subscriber waited for before a message does not matter to it.
proof fn lemma_insert_anew(s: State, t: TaskView, insert: InsertView)
    ensures
        (State { task: t, ..s }).on_insert(insert) == s.on_insert(insert),
{
}

proof fn lemma_delete_anew(s: State, t: TaskView, delete: DeleteView, then: Option<InsertView>)
    ensures
        (State { task: t, ..s }).on_delete(delete, then) == s.on_delete(delete, then),
{
}

proof fn lemma_toasted_anew(s: State, t: TaskView, oid: u32, new: Seq<ColumnView>)
    ensures
        (State { task: t, ..s }).on_toasted_update(oid, new) == s.on_toasted_update(oid, new),
{
}

proof fn lemma_plain_anew(s: State, t: TaskView, oid: u32, new: Seq<ColumnView>)
    ensures
        (State { task: t, ..s }).on_plain_update(oid, new) == s.on_plain_update(oid, new),
{
    let other = State { task: t, ..s };
    assert(other.toasted_identity(oid, new) == s.toasted_identity(oid, new));
    assert(other.member(oid, new) == s.member(oid, new));
    assert(other.table(oid) == s.table(oid));
    lemma_toasted_anew(s, t, oid, new);
}

proof fn lemma_key_anew(s: State, t: TaskView, oid: u32, key: Seq<ColumnView>, new: Seq<ColumnView>)
    ensures
        (State { task: t, ..s }).on_key_update(oid, key, new) == s.on_key_update(oid, key, new),
{
    let other = State { task: t, ..s };
    assert(other.toasted_identity(oid, new) == s.toasted_identity(oid, new));
    assert(other.table(oid) == s.table(oid));
}

proof fn lemma_old_anew(s: State, t: TaskView, oid: u32, old: Seq<ColumnView>, new: Seq<ColumnView>)
    ensures
        (State { task: t, ..s }).on_old_update(oid, old, new) == s.on_old_update(oid, old, new),
{
    let other = State { task: t, ..s };
    assert(other.table(oid) == s.table(oid));
    assert(other.on_full_update(oid, old, new) == s.on_full_update(oid, old, new));
}

proof fn lemma_relation_anew(s: State, t: TaskView, relation: RelationView)
    ensures
        (State { task: t, ..s }).on_relation(relation) == s.on_relation(relation),
{
}

/// A message that finds no connection waits for one, and is then handled as if it had
/// been there.
pub proof fn law_messages_wait_for_connections(
    s: State,
    payload: Option<PayloadView>,
    size: usize,
    n: usize,
)
    requires
        s.connections == 0,
        n > 0,
    ensures
        ({
            let (waiting, action) = s.on_data(payload, size);
            &&& action is Connect
            &&& untouched(s, waiting)
            &&& waiting.on_event(EventView::Connected(n)) == State { connections: n, ..s }.on_data(
                payload,
                size,
            )
        }),
{
    let t = TaskView::Connect { payload };
    let early = State { connections: n, size, ..s };
    assert(State { task: t, ..early } == State {
        connections: n,
        ..s.on_data(payload, size).0
    });
    match payload {
        Some(PayloadView::Update(update)) => {
            match update.identity {
                IdentityView::Key(key) => {
                    lemma_key_anew(early, t, update.oid, key, update.new);
                },
                IdentityView::Old(old) => {
                    lemma_old_anew(early, t, update.oid, old, update.new);
                },
                IdentityView::Nothing => {
                    lemma_plain_anew(early, t, update.oid, update.new);
                },
            }
            assert(State { task: t, ..early }.on_update(update) == early.on_update(update));
        },
        Some(PayloadView::Delete(delete)) => {
            lemma_delete_anew(early, t, delete, None);
        },
        Some(PayloadView::Insert(insert)) => {
            lemma_insert_anew(early, t, insert);
        },
        Some(PayloadView::Relation(relation)) => {
            lemma_relation_anew(early, t, relation);
        },
        _ => {},
    }
    assert(State { task: t, ..early }.dispatch(payload) == early.dispatch(payload));
}

/// The key by which a table is known at the destination: the parent's, part by part,
/// where there is one.
pub open spec fn destination_key(table: TableView) -> KeyView {
    KeyView {
        schema: if table.table.parent_schema.len() == 0 {
            table.table.schema
        } else {
            table.table.parent_schema
        },
        name: if table.table.parent_name.len() == 0 {
            table.table.name
        } else {
            table.table.parent_name
        },
    }
}

/// Whether a table has what changes of its rows are found by.
pub open spec fn is_replicable(table: TableView) -> bool {
    &&& table.identity != "n"@
    &&& table.identity == "f"@ || exists|i: int|
        0 <= i < table.columns.len() && (#[trigger] table.columns[i]).identity
}

/// The message that announces a table.
pub open spec fn announced(oid: u32, key: KeyView) -> Option<PayloadView> {
    Some(PayloadView::Relation(RelationView { oid, namespace: key.schema, name: key.name }))
}

/// Whether a table is known from a message on, under the number given.
pub open spec fn knows(s: State, t: State, oid: u32, key: KeyView) -> bool {
    &&& t.relations == s.relations.insert(oid, key)
    &&& t.table_lsns == s.table_lsns.insert(oid, s.tables[key].lsn.lsn)
    &&& untouched(
        State {
            relations: t.relations,
            table_lsns: t.table_lsns,
            statements: t.statements,
            keys: t.keys,
            ..s
        },
        t,
    )
}

/// Whether the statements of a table are those that its shape calls for: updates and
/// deletes find a row by all of its columns where the replica identity is FULL, by
/// the key otherwise.
pub open spec fn statements_fit(s: State, statements: StatementsView, table: TableView) -> bool {
    let omni = !table.sharded_by(s.cluster.sharded_tables);
    &&& statements.insert.query == table.insert_sql()
    &&& statements.omni == omni
    &&& statements.update_shapes == Map::<Seq<bool>, ParseView>::empty()
    &&& statements.full_identity == (table.identity == "f"@)
    &&& if table.identity == "f"@ {
        &&& statements.update.query == table.update_full_identity_sql()
        &&& statements.delete.query == table.delete_full_identity_sql()
        &&& omni ==> statements.upsert.query == table.upsert_full_identity_sql()
    } else {
        &&& statements.update.query == table.update_sql()
        &&& statements.delete.query == table.delete_sql()
        &&& statements.upsert.query == table.upsert_sql()
    }
    &&& match table.null_filter_column {
        None => statements.null_column_idx is None,
        Some(name) => statements.null_column_idx matches Some(i) && {
            &&& i < table.columns.len()
            &&& table.columns[i as int].name@ == name
            &&& forall|j: int| 0 <= j < i ==> (#[trigger] table.columns[j]).name@ != name
        },
    }
}

/// Whether the column that filters rows by NULL is there, where one does.
pub open spec fn filter_is_there(table: TableView) -> bool {
    table.null_filter_column matches Some(name) ==> exists|i: int|
        0 <= i < table.columns.len() && (#[trigger] table.columns[i]).name@ == name
}

proof fn lemma_first_named(columns: Seq<PublicationTableColumn>, name: Seq<char>, i: int)
    requires
        0 <= i < columns.len(),
        columns[i].name@ == name,
    ensures
        exists|k: int| #[trigger] first_named(columns, name, k),
    decreases i,
{
    if first_named(columns, name, i) {
    } else {
        let j = choose|j: int| 0 <= j < i && (#[trigger] columns[j]).name@ == name;
        lemma_first_named(columns, name, j);
    }
}

/// A table that is announced has its statements prepared, all that its changes will
/// need, and is known once they are.
pub proof fn law_announced_tables_are_prepared(s: State, oid: u32, key: KeyView, size: usize)
    requires
        s.connections > 0,
        s.tables.contains_key(key),
        is_replicable(s.tables[key]),
        filter_is_there(s.tables[key]),
        !s.keys.contains_key(destination_key(s.tables[key])),
        s.tables[key].columns.len() <= usize::MAX,
    ensures
        ({
            let table = s.tables[key];
            let step = s.on_data(announced(oid, key), size);
            let done = step.0.on_event(EventView::Prepared);
            let statements = done.0.statements[oid];
            &&& untouched(s, step.0)
            &&& step.1 matches ActionView::Prepare(parses) && {
                &&& parses.contains(statements.insert)
                &&& parses.contains(statements.update)
                &&& parses.contains(statements.delete)
                &&& statements.omni || table.identity != "f"@ ==> parses.contains(
                    statements.upsert,
                )
            }
            &&& done.1 == ActionView::Done(None)
            &&& done.0.task is Idle
            &&& knows(s, done.0, oid, key)
            &&& done.0.statements == s.statements.insert(oid, statements)
            &&& done.0.keys == s.keys.insert(destination_key(table), oid)
            &&& statements_fit(s, statements, table)
        }),
{
    let table = s.tables[key];
    let step = s.on_data(announced(oid, key), size);
    if let Some(name) = table.null_filter_column {
        let i = choose|i: int|
            0 <= i < table.columns.len() && (#[trigger] table.columns[i]).name@ == name;
        lemma_first_named(table.columns, name, i);
        let k = choose|k: int| #[trigger] first_named(table.columns, name, k);
        assert(k as usize == k);
    }
    if let ActionView::Prepare(parses) = step.1 {
        assert(parses[0] == parses[0]);
        assert(parses[1] == parses[1]);
        assert(parses[2] == parses[2]);
        if parses.len() > 3 {
            assert(parses[3] == parses[3]);
        }
    }
}

/// A table that goes to the destination of a known one shares its statements.
pub proof fn law_tables_of_one_destination_share(
    s: State,
    oid: u32,
    key: KeyView,
    known: u32,
    size: usize,
)
    requires
        s.connections > 0,
        s.tables.contains_key(key),
        is_replicable(s.tables[key]),
        s.keys.contains_key(destination_key(s.tables[key])),
        s.keys[destination_key(s.tables[key])] == known,
        s.statements.contains_key(known),
    ensures
        ({
            let step = s.on_data(announced(oid, key), size);
            &&& step.1 == ActionView::Done(None)
            &&& knows(s, step.0, oid, key)
            &&& step.0.statements == s.statements.insert(oid, s.statements[known])
            &&& step.0.keys == s.keys
        }),
{
}

/// A table that can't be replicated is a failure when it is announced, whatever else
/// is known. One that nobody asked for is left aside.
pub proof fn law_odd_tables(s: State, oid: u32, key: KeyView, size: usize)
    requires
        s.connections > 0,
    ensures
        ({
            let step = s.on_data(announced(oid, key), size);
            &&& !s.tables.contains_key(key) ==> step.1 == ActionView::Done(None) && untouched(
                s,
                step.0,
            )
            &&& s.tables.contains_key(key) && !is_replicable(s.tables[key]) ==> (
            step.1 matches ActionView::Failed(Fault::Invalid { table, kind }) && table
                == s.tables[key].table.text() && (kind is ReplicaIdentityNothing
                <==> s.tables[key].identity == "n"@) && (kind is NoIdentityColumns
                <==> s.tables[key].identity != "n"@))
        }),
{
    reveal_strlit("n");
    reveal_strlit("f");
    assert("n"@[0] != "f"@[0]);
}

/// A transaction moves the position to its end, and forgets which tables the one
/// before it had changed.
pub proof fn law_transactions_begin(s: State, begin: Begin, size: usize)
    requires
        s.connections > 0,
    ensures
        ({
            let step = s.on_data(Some(PayloadView::Begin(begin)), size);
            &&& step.1 == ActionView::Done(None)
            &&& step.0.task is Idle
            &&& untouched(
                State {
                    lsn: begin.final_transaction_lsn,
                    lsn_changed: begin.final_transaction_lsn != s.lsn,
                    in_transaction: true,
                    changed_tables: Set::empty(),
                    ..s
                },
                step.0,
            )
        }),
{
}

/// A commit waits for all writes, then for the shards to commit, and then reports its
/// end to the source. Every table that the transaction changed has come as far as
/// the transaction, and no other table has moved.
pub proof fn law_commits_are_drained_synced_and_reported(
    s: State,
    commit: Commit,
    size: usize,
    now: i64,
)
    requires
        s.connections > 0,
    ensures
        ({
            let drain = s.on_data(Some(PayloadView::Commit(commit)), size);
            let sync = drain.0.on_event(EventView::Drained);
            let done = sync.0.on_event(EventView::Synced { now });
            &&& drain.1 is Drain
            &&& untouched(s, drain.0)
            &&& sync.1 is Sync
            &&& untouched(s, sync.0)
            &&& done.1 matches ActionView::Done(Some(status)) && {
                &&& status.last_applied == commit.end_lsn
                &&& status.last_flushed == commit.end_lsn
                &&& status.last_written == commit.end_lsn
                &&& status.system_clock == now
                &&& status.reply == 0
            }
            &&& untouched(
                State {
                    table_lsns: done.0.table_lsns,
                    changed_tables: Set::empty(),
                    lsn_changed: commit.end_lsn != s.lsn,
                    lsn: commit.end_lsn,
                    committed_lsn: commit.end_lsn,
                    in_transaction: false,
                    ..s
                },
                done.0,
            )
            &&& forall|oid: u32| #[trigger]
                done.0.table_lsns.contains_key(oid) <==> s.table_lsns.contains_key(oid)
                    || s.changed_tables.contains(oid)
            &&& forall|oid: u32|
                done.0.table_lsns.contains_key(oid) ==> #[trigger] done.0.table_lsns[oid] == (
                if s.changed_tables.contains(oid) {
                    s.lsn
                } else {
                    s.table_lsns[oid]
                })
        }),
{
}

/// A new subscriber stands at the start with nothing known but its tables, the last
/// one of a name in its place.
pub proof fn law_subscribers_start_empty(
    cluster: Arc<Cluster>,
    tables: Seq<Table>,
    partition: OmniOwnership,
    i: int,
)
    requires
        0 <= i < tables.len(),
    ensures
        ({
            let s = initial(cluster, tables, partition);
            let key = KeyView { schema: tables[i].table.schema@, name: tables[i].table.name@ };
            &&& s.connections == 0
            &&& s.lsn == 0
            &&& s.committed_lsn == 0
            &&& !s.in_transaction
            &&& s.bytes_sharded == 0
            &&& s.task is Idle
            &&& s.partition == partition
            &&& s.cluster == cluster
            &&& s.key_move is None
            &&& s.relations.dom() == Set::<u32>::empty()
            &&& s.statements.dom() == Set::<u32>::empty()
            &&& s.table_lsns.dom() == Set::<u32>::empty()
            &&& s.changed_tables == Set::<u32>::empty()
            &&& s.tables.contains_key(key)
            &&& (forall|j: int|
                i < j < tables.len() ==> (#[trigger] tables[j]).table.schema@ != key.schema
                    || tables[j].table.name@ != key.name) ==> s.tables[key] == tables[i]@
        }),
    decreases tables.len(),
{
    let s = initial(cluster, tables, partition);
    assert(s.relations.dom() =~= Set::<u32>::empty());
    assert(s.statements.dom() =~= Set::<u32>::empty());
    assert(s.table_lsns.dom() =~= Set::<u32>::empty());
    let before = tables.drop_last();
    if i < before.len() {
        law_subscribers_start_empty(cluster, before, partition, i);
        assert(before[i] == tables[i]);
        assert(forall|j: int| 0 <= j < before.len() ==> #[trigger] before[j] == tables[j]);
        if forall|j: int|
            i < j < tables.len() ==> (#[trigger] tables[j]).table.schema@
                != tables[i].table.schema@ || tables[j].table.name@ != tables[i].table.name@ {
            assert(tables.last() == tables[tables.len() - 1]);
        }
    }
}

} // verus!
