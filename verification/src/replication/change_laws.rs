//! What becomes of each change of the stream: through which statement it is written,
//! with which parameters and to which shards, from the message to its last answer.

use vstd::prelude::*;

use super::error::Op;
use super::messages::{DeleteView, IdentityView, InsertView, PayloadView, UpdateView};
use super::presence::{none_set, presence_of};
use super::routing::ShardView;
use super::statements::ParseView;
use super::stream::{identity_key, ActionView, Fault, State, Step, TaskView};
use super::table::{KeyView, PublicationTableColumn, TableView};
use super::tuple::{
    filled, non_null_columns, only_toasted, sent_columns, BindView, ColumnView, Format, Identifier,
    ParameterView,
};

verus! {

/// Whether a change of a table comes behind all that has been applied to it.
pub open spec fn is_news(s: State, oid: u32) -> bool {
    s.table_lsns.contains_key(oid) ==> s.table_lsns[oid] < s.lsn
}

/// Whether the value of every column was sent.
pub open spec fn is_whole(row: Seq<ColumnView>) -> bool {
    forall|i: int| 0 <= i < row.len() ==> (#[trigger] row[i]).identifier != Identifier::Toasted
}

/// Whether a parameter is the value of a column.
pub open spec fn is_value(p: Option<ParameterView>, c: ColumnView) -> bool {
    match c.identifier {
        Identifier::Null => p is None,
        Identifier::Format(format) => p == Some(ParameterView { format, data: c.data }),
        Identifier::Toasted => p == Some(ParameterView { format: Format::Text, data: c.data }),
    }
}

/// Whether parameters are those of a statement, and hold a row.
pub open spec fn carries(bind: BindView, parse: ParseView, row: Seq<ColumnView>) -> bool {
    &&& bind.statement == parse.name
    &&& bind.parameters.len() == row.len()
    &&& forall|i: int| 0 <= i < row.len() ==> is_value(#[trigger] bind.parameters[i], row[i])
}

/// Whether an action routes a row by a statement.
pub open spec fn routes(action: ActionView, parse: ParseView, row: Seq<ColumnView>) -> bool {
    action matches ActionView::Route { binds, parse: by } && {
        &&& by == parse
        &&& binds.len() == 1
        &&& carries(binds[0], parse, row)
    }
}

/// Whether a subscriber waits for the route of a row, to write it once.
pub open spec fn waits_to_write(
    s: State,
    oid: u32,
    parse: ParseView,
    row: Seq<ColumnView>,
    counts: bool,
    then: Option<InsertView>,
) -> bool {
    s.task matches TaskView::Write { oid: o, bind, track_missed, then: t } && {
        &&& o == oid
        &&& carries(bind, parse, row)
        &&& track_missed == counts
        &&& t == then
    }
}

/// Whether nothing that is known of tables, positions and connections has changed.
pub open spec fn untouched(s: State, t: State) -> bool {
    &&& t.cluster == s.cluster
    &&& t.relations == s.relations
    &&& t.tables == s.tables
    &&& t.statements == s.statements
    &&& t.keys == s.keys
    &&& t.table_lsns == s.table_lsns
    &&& t.changed_tables == s.changed_tables
    &&& t.connections == s.connections
    &&& t.committed_lsn == s.committed_lsn
    &&& t.lsn == s.lsn
    &&& t.lsn_changed == s.lsn_changed
    &&& t.in_transaction == s.in_transaction
    &&& t.partition == s.partition
    &&& t.key_move == s.key_move
}

/// Whether a step routes a row, and waits to write it.
pub open spec fn starts_write(
    s: State,
    step: Step,
    oid: u32,
    parse: ParseView,
    row: Seq<ColumnView>,
    counts: bool,
    then: Option<InsertView>,
) -> bool {
    &&& untouched(s, step.0)
    &&& routes(step.1, parse, row)
    &&& waits_to_write(step.0, oid, parse, row, counts, then)
}

/// Whether a change of a table is remembered as applied: at the end of the
/// transaction inside of one, at once outside.
pub open spec fn remembers(s: State, t: State, oid: u32) -> bool {
    if s.in_transaction {
        untouched(State { changed_tables: s.changed_tables.insert(oid), ..s }, t)
    } else {
        untouched(State { table_lsns: s.table_lsns.insert(oid, s.lsn), ..s }, t)
    }
}

/// Whether a step leaves a change aside, and only remembers that the table has come
/// this far.
pub open spec fn only_remembers(s: State, step: Step, oid: u32) -> bool {
    step.1 == ActionView::Done(None) && step.0.task is Idle && remembers(s, step.0, oid)
}

/// Whether rows of a table are written whatever their key.
pub open spec fn unfiltered(s: State, oid: u32) -> bool {
    s.statements.contains_key(oid) && s.statements[oid].null_column_idx is None
}

/// Whether a row has no key, where its table is filtered by that.
pub open spec fn passes_filter(s: State, oid: u32, row: Seq<ColumnView>) -> bool {
    match s.statements[oid].null_column_idx {
        None => true,
        Some(i) => i < row.len() && row[i as int].identifier is Null,
    }
}

/// The statement that puts a row into the destination: one that overwrites for a
/// table on every shard, a plain one otherwise.
pub open spec fn put_statement(s: State, oid: u32) -> ParseView {
    if s.statements[oid].omni {
        s.statements[oid].upsert
    } else {
        s.statements[oid].insert
    }
}

/// Whether the subscriber can take changes of a table.
pub open spec fn can_take(s: State, oid: u32) -> bool {
    s.connections > 0 && s.statements.contains_key(oid) && is_news(s, oid)
}

/// The values of the columns that are not NULL.
pub open spec fn without_nulls(row: Seq<ColumnView>) -> Seq<ColumnView> {
    row.filter(|c: ColumnView| !(c.identifier is Null))
}

/// The values that were sent.
pub open spec fn without_toasted(row: Seq<ColumnView>) -> Seq<ColumnView> {
    row.filter(|c: ColumnView| !(c.identifier is Toasted))
}

/// Whether a row stands for another one with the values that were not sent filled in
/// from the row before it.
pub open spec fn completes(
    row: Seq<ColumnView>,
    new: Seq<ColumnView>,
    old: Seq<ColumnView>,
) -> bool {
    &&& row.len() == new.len()
    &&& forall|i: int|
        0 <= i < new.len() ==> #[trigger] row[i] == (if new[i].identifier is Toasted {
            old[i]
        } else {
            new[i]
        })
}

/// Whether a table of the stream is known, and is the table given.
pub open spec fn is_table(s: State, oid: u32, table: TableView) -> bool {
    &&& s.relations.contains_key(oid)
    &&& s.tables.contains_key(s.relations[oid])
    &&& s.tables[s.relations[oid]] == table
}

/// Whether the value of some column of the identity was not sent.
pub open spec fn lacks_identity(new: Seq<ColumnView>, table: TableView) -> bool {
    exists|i: int|
        0 <= i < new.len() && i < table.columns.len() && table.columns[i].identity
            && (#[trigger] new[i]).identifier is Toasted
}

/// Whether the value of some column outside the identity was sent.
pub open spec fn has_news(new: Seq<ColumnView>, table: TableView) -> bool {
    exists|i: int|
        0 <= i < new.len() && i < table.columns.len() && !table.columns[i].identity && !((
        #[trigger] new[i]).identifier is Toasted)
}

/// The message of an inserted row.
pub open spec fn inserted(oid: u32, row: Seq<ColumnView>) -> Option<PayloadView> {
    Some(PayloadView::Insert(InsertView { oid, row }))
}

/// The message of a deleted row.
pub open spec fn deleted(
    oid: u32,
    key: Option<Seq<ColumnView>>,
    old: Option<Seq<ColumnView>>,
) -> Option<PayloadView> {
    Some(PayloadView::Delete(DeleteView { oid, key, old }))
}

/// The message of an updated row.
pub open spec fn updated(oid: u32, identity: IdentityView, new: Seq<ColumnView>) -> Option<
    PayloadView,
> {
    Some(PayloadView::Update(UpdateView { oid, identity, new }))
}

/// Whether a step prepares one more statement, for the columns of a row that were
/// sent, before the row is written.
pub open spec fn starts_shape(
    s: State,
    step: Step,
    oid: u32,
    mask: Seq<bool>,
    query: Seq<char>,
    row: Seq<ColumnView>,
    shard: Option<ShardView>,
) -> bool {
    &&& untouched(s, step.0)
    &&& step.1 matches ActionView::Prepare(parses) && {
        &&& parses.len() == 1
        &&& parses[0].query == query
        &&& step.0.task matches TaskView::Shape { oid: o, mask: m, statement, bind, shard: to } && {
            &&& o == oid
            &&& m == mask
            &&& statement == parses[0]
            &&& carries(bind, statement, row)
            &&& to == shard
        }
    }
}

proof fn lemma_same_filter(
    row: Seq<ColumnView>,
    f: spec_fn(ColumnView) -> bool,
    g: spec_fn(ColumnView) -> bool,
)
    requires
        forall|c: ColumnView| f(c) == #[trigger] g(c),
    ensures
        row.filter(f) == row.filter(g),
    decreases row.len(),
{
    reveal(Seq::filter);
    if row.len() > 0 {
        lemma_same_filter(row.drop_last(), f, g);
    }
}

pub(crate) proof fn lemma_without(row: Seq<ColumnView>)
    ensures
        non_null_columns(row) == without_nulls(row),
        sent_columns(row) == without_toasted(row),
{
    lemma_same_filter(
        row,
        |c: ColumnView| c.identifier != Identifier::Null,
        |c: ColumnView| !(c.identifier is Null),
    );
    lemma_same_filter(
        row,
        |c: ColumnView| c.identifier != Identifier::Toasted,
        |c: ColumnView| !(c.identifier is Toasted),
    );
}

/// An inserted row is written, unless its table takes rows without a key only and it
/// has one.
pub proof fn law_inserts_are_written(s: State, oid: u32, row: Seq<ColumnView>, size: usize)
    requires
        can_take(s, oid),
    ensures
        ({
            let step = s.on_data(inserted(oid, row), size);
            if passes_filter(s, oid, row) {
                starts_write(s, step, oid, put_statement(s, oid), row, true, None)
            } else {
                only_remembers(s, step, oid)
            }
        }),
{
}

/// A deleted row is written as a delete: by the whole row before it where the replica
/// identity is FULL, by the columns of its key otherwise. Without the key there is
/// nothing to write; where the whole row is needed, its absence is a failure.
pub proof fn law_deletes_are_written(
    s: State,
    oid: u32,
    key: Option<Seq<ColumnView>>,
    old: Option<Seq<ColumnView>>,
    size: usize,
)
    requires
        can_take(s, oid),
    ensures
        ({
            let step = s.on_data(deleted(oid, key, old), size);
            let delete = s.statements[oid].delete;
            let counts = s.statements[oid].null_column_idx is None;
            match (s.statements[oid].full_identity, key, old) {
                (true, _, Some(row)) => starts_write(s, step, oid, delete, row, counts, None),
                (true, _, None) => step.1 is Failed,
                (false, Some(row), _) => starts_write(
                    s,
                    step,
                    oid,
                    delete,
                    without_nulls(row),
                    counts,
                    None,
                ),
                (false, None, _) => only_remembers(s, step, oid),
            }
        }),
{
    if let Some(row) = key {
        lemma_without(row);
    }
}

/// An update that keeps the identity and carries every column is written through the
/// update of its table, with the new row as its parameters.
pub proof fn law_whole_updates_are_written(s: State, oid: u32, new: Seq<ColumnView>, size: usize)
    requires
        can_take(s, oid),
        unfiltered(s, oid),
        is_whole(new),
    ensures
        starts_write(
            s,
            s.on_data(updated(oid, IdentityView::Nothing, new), size),
            oid,
            s.statements[oid].update,
            new,
            true,
            None,
        ),
{
}

/// An update that changes the key is written as a delete by the key before it, and
/// then as an insert of the new row.
pub proof fn law_key_updates_move_the_row(
    s: State,
    oid: u32,
    key: Seq<ColumnView>,
    new: Seq<ColumnView>,
    size: usize,
)
    requires
        can_take(s, oid),
        is_whole(new),
    ensures
        ({
            let step = s.on_data(updated(oid, IdentityView::Key(key), new), size);
            if s.statements[oid].full_identity {
                step.1 is Failed
            } else {
                starts_write(
                    s,
                    step,
                    oid,
                    s.statements[oid].delete,
                    without_nulls(key),
                    s.statements[oid].null_column_idx is None,
                    Some(InsertView { oid, row: new }),
                )
            }
        }),
{
    lemma_without(key);
}

/// A row that changes its key, or that can't be found by it, needs every value that
/// takes part in that: a value that was not sent is a failure.
pub proof fn law_missing_values_are_failures(
    s: State,
    oid: u32,
    key: Seq<ColumnView>,
    new: Seq<ColumnView>,
    table: TableView,
    size: usize,
)
    requires
        can_take(s, oid),
        is_table(s, oid, table),
    ensures
        !is_whole(new) ==> s.on_data(updated(oid, IdentityView::Key(key), new), size).1
            == ActionView::Failed(
            if lacks_identity(new, table) {
                Fault::ToastedIdentityColumn { table: table.publication, oid }
            } else {
                Fault::ToastedRowMigration { table: table.publication, oid }
            },
        ),
        lacks_identity(new, table) ==> s.on_data(
            updated(oid, IdentityView::Nothing, new),
            size,
        ).1 == ActionView::Failed(
            Fault::ToastedIdentityColumn { table: table.publication, oid },
        ),
{
    if lacks_identity(new, table) {
        let i = choose|i: int|
            0 <= i < new.len() && i < table.columns.len() && table.columns[i].identity && (
            #[trigger] new[i]).identifier is Toasted;
        assert(table.columns[i].identity && new[i].identifier == Identifier::Toasted);
    }
    if !is_whole(new) {
        let i = choose|i: int|
            0 <= i < new.len() && (#[trigger] new[i]).identifier == Identifier::Toasted;
        assert(new[i].identifier == Identifier::Toasted);
    }
    if crate::replication::stream::identity_toasted(new, table.columns) {
        let i = choose|i: int|
            0 <= i < new.len() && i < table.columns.len() && (#[trigger] table.columns[i]).identity
                && new[i].identifier == Identifier::Toasted;
        assert(new[i].identifier is Toasted);
    }
}

proof fn lemma_presence_is_news(new: Seq<ColumnView>, columns: Seq<PublicationTableColumn>)
    requires
        columns.len() <= new.len(),
    ensures
        none_set(presence_of(new, columns)) <==> forall|i: int|
            0 <= i < columns.len() && !columns[i].identity ==> (
            #[trigger] new[i]).identifier is Toasted,
    decreases columns.len(),
{
    if columns.len() > 0 {
        let last = columns.len() - 1;
        let before = columns.drop_last();
        lemma_presence_is_news(new, before);
        assert(forall|i: int| 0 <= i < last ==> before[i] == columns[i]);
        let old = presence_of(new, before);
        let mask = presence_of(new, columns);
        assert(columns.last() == columns[last]);
        if none_set(mask) {
            assert(none_set(old)) by {
                assert forall|k: int| 0 <= k < old.len() implies !(#[trigger] old[k]) by {
                    assert(!mask[k]);
                }
            }
            if !columns[last].identity {
                assert(!mask[mask.len() - 1]);
            }
            assert forall|i: int| 0 <= i < columns.len() && !columns[i].identity implies (
            #[trigger] new[i]).identifier is Toasted by {}
        }
        if forall|i: int|
            0 <= i < columns.len() && !columns[i].identity ==> (
            #[trigger] new[i]).identifier is Toasted {
            assert(new[last].identifier is Toasted || columns[last].identity);
            assert forall|i: int| 0 <= i < before.len() && !before[i].identity implies (
            #[trigger] new[i]).identifier is Toasted by {}
            assert(none_set(old));
        }
    }
}

pub(crate) proof fn lemma_news(new: Seq<ColumnView>, table: TableView)
    requires
        new.len() == table.columns.len(),
    ensures
        has_news(new, table) <==> !none_set(presence_of(new, table.columns)),
{
    lemma_presence_is_news(new, table.columns);
}

/// An update that keeps the identity, of which some values were not sent, is written
/// through a statement for the columns that were: a known one at once, a new one
/// behind its preparation. With no new value outside the identity there is nothing to
/// write.
pub proof fn law_partial_updates_are_written(
    s: State,
    oid: u32,
    new: Seq<ColumnView>,
    table: TableView,
    size: usize,
)
    requires
        can_take(s, oid),
        is_table(s, oid, table),
        passes_filter(s, oid, new),
        !is_whole(new),
        !lacks_identity(new, table),
        new.len() == table.columns.len(),
    ensures
        ({
            let step = s.on_data(updated(oid, IdentityView::Nothing, new), size);
            let shapes = s.statements[oid].update_shapes;
            let mask = presence_of(new, table.columns);
            if !has_news(new, table) {
                only_remembers(s, step, oid)
            } else if shapes.contains_key(mask) {
                starts_write(s, step, oid, shapes[mask], without_toasted(new), true, None)
            } else {
                starts_shape(
                    s,
                    step,
                    oid,
                    mask,
                    table.update_partial_sql(mask),
                    without_toasted(new),
                    None,
                )
            }
        }),
{
    lemma_without(new);
    lemma_news(new, table);
    lemma_not_toasted_identity(new, table);
    let i = choose|i: int|
        0 <= i < new.len() && (#[trigger] new[i]).identifier == Identifier::Toasted;
    assert(new[i].identifier == Identifier::Toasted);
}

proof fn lemma_not_toasted_identity(new: Seq<ColumnView>, table: TableView)
    requires
        !lacks_identity(new, table),
    ensures
        !crate::replication::stream::identity_toasted(new, table.columns),
{
    if crate::replication::stream::identity_toasted(new, table.columns) {
        let i = choose|i: int|
            0 <= i < new.len() && i < table.columns.len() && (#[trigger] table.columns[i]).identity
                && new[i].identifier == Identifier::Toasted;
        assert(new[i].identifier is Toasted);
    }
}

/// An updated row of a table that takes rows without a key only: one that has a key
/// now is deleted by its identity, one that has none is put into the destination.
pub proof fn law_filtered_updates(
    s: State,
    oid: u32,
    new: Seq<ColumnView>,
    table: TableView,
    size: usize,
)
    requires
        can_take(s, oid),
        is_table(s, oid, table),
        s.statements[oid].null_column_idx is Some,
        !lacks_identity(new, table),
        new.len() == table.columns.len(),
    ensures
        ({
            let step = s.on_data(updated(oid, IdentityView::Nothing, new), size);
            if passes_filter(s, oid, new) {
                is_whole(new) ==> starts_write(
                    s,
                    step,
                    oid,
                    put_statement(s, oid),
                    new,
                    true,
                    None,
                )
            } else if s.statements[oid].full_identity {
                step.1 is Failed
            } else {
                starts_write(
                    s,
                    step,
                    oid,
                    s.statements[oid].delete,
                    without_nulls(
                        Seq::new(
                            new.len(),
                            |i: int|
                                if table.columns[i].identity {
                                    new[i]
                                } else {
                                    ColumnView {
                                        identifier: Identifier::Null,
                                        len: 0,
                                        data: Seq::empty(),
                                    }
                                },
                        ),
                    ),
                    false,
                    None,
                )
            }
        }),
{
    lemma_not_toasted_identity(new, table);
    let key = identity_key(new, table.columns);
    lemma_without(key);
    assert(key =~= Seq::new(
        new.len(),
        |i: int|
            if table.columns[i].identity {
                new[i]
            } else {
                ColumnView { identifier: Identifier::Null, len: 0, data: Seq::empty() }
            },
    ));
}

/// Whether a step asks where two rows go, the new one and the one before it, by the
/// update of their table.
pub open spec fn starts_move(
    s: State,
    step: Step,
    oid: u32,
    new: Seq<ColumnView>,
    old: Seq<ColumnView>,
) -> bool {
    let update = s.statements[oid].update;
    &&& untouched(s, step.0)
    &&& step.1 matches ActionView::Route { binds, parse } && {
        &&& parse == update
        &&& binds.len() == 2
        &&& step.0.task matches TaskView::Move { oid: o, new: n, old: p, complete } && {
            &&& o == oid
            &&& n == new
            &&& p == old
            &&& completes(complete, new, old)
            &&& carries(binds[0], update, complete)
            &&& carries(binds[1], update, old)
        }
    }
}

/// An update that carries the row before it is nothing where no value was sent.
/// Otherwise both rows are routed, unless a filter by NULL takes the row in or out:
/// then it is put into the destination, or deleted from it.
pub proof fn law_old_updates_are_written(
    s: State,
    oid: u32,
    old: Seq<ColumnView>,
    new: Seq<ColumnView>,
    full: Seq<ColumnView>,
    table: TableView,
    size: usize,
)
    requires
        can_take(s, oid),
        is_table(s, oid, table),
        new.len() == old.len(),
        completes(full, new, old),
    ensures
        ({
            let step = s.on_data(updated(oid, IdentityView::Old(old), new), size);
            if forall|i: int|
                0 <= i < new.len() ==> (#[trigger] new[i]).identifier is Toasted {
                only_remembers(s, step, oid)
            } else if !passes_filter(s, oid, full) {
                if s.statements[oid].full_identity {
                    starts_write(s, step, oid, s.statements[oid].delete, old, false, None)
                } else {
                    only_remembers(s, step, oid)
                }
            } else if !passes_filter(s, oid, old) {
                starts_write(s, step, oid, put_statement(s, oid), full, true, None)
            } else {
                starts_move(s, step, oid, new, old)
            }
        }),
{
    assert(filled(new, old) =~= full);
    if only_toasted(new) {
        assert(forall|i: int| 0 <= i < new.len() ==> (#[trigger] new[i]).identifier is Toasted);
    }
}

/// An update that carries a row of another length before it is a failure.
pub proof fn law_unequal_rows_are_failures(
    s: State,
    oid: u32,
    old: Seq<ColumnView>,
    new: Seq<ColumnView>,
    table: TableView,
    size: usize,
)
    requires
        can_take(s, oid),
        is_table(s, oid, table),
        new.len() != old.len(),
        exists|i: int| 0 <= i < new.len() && !((#[trigger] new[i]).identifier is Toasted),
    ensures
        s.on_data(updated(oid, IdentityView::Old(old), new), size).1 == ActionView::Failed(
            Fault::MissingData,
        ),
{
}

/// Under FULL, a change that does not carry the whole row before it is a failure, which
/// names the table and what was to be done.
pub proof fn law_full_identity_needs_the_old_row(
    s: State,
    oid: u32,
    key: Option<Seq<ColumnView>>,
    changed: Seq<ColumnView>,
    new: Seq<ColumnView>,
    table: TableView,
    size: usize,
)
    requires
        can_take(s, oid),
        is_table(s, oid, table),
        s.statements[oid].full_identity,
        is_whole(new),
    ensures
        s.on_data(deleted(oid, key, None), size).1 == ActionView::Failed(
            Fault::FullIdentityMissingOld { table: table.table.text(), oid, op: Op::Delete },
        ),
        s.on_data(updated(oid, IdentityView::Key(changed), new), size).1 == ActionView::Failed(
            Fault::FullIdentityMissingOld { table: table.table.text(), oid, op: Op::Delete },
        ),
{
}

/// A message that is none of ours changes nothing, and neither does what is no message.
pub proof fn law_other_messages_change_nothing(s: State, size: usize)
    requires
        s.connections > 0,
    ensures
        ({
            let step = s.on_data(Some(PayloadView::Other), size);
            &&& step.1 == ActionView::Done(None)
            &&& step.0.task is Idle
            &&& untouched(s, step.0)
        }),
        ({
            let step = s.on_data(None, size);
            &&& step.1 == ActionView::Done(None)
            &&& step.0.task is Idle
            &&& untouched(s, step.0)
            &&& step.0.bytes_sharded == s.bytes_sharded
        }),
{
}

/// Whether a subscriber has to start over: nothing is left of what came over its
/// connections, and it still knows where it stands.
pub open spec fn starts_over(s: State, t: State) -> bool {
    &&& t.connections == 0
    &&& t.relations.dom() == Set::<u32>::empty()
    &&& t.statements.dom() == Set::<u32>::empty()
    &&& t.keys.dom() == Set::<KeyView>::empty()
    &&& t.changed_tables == Set::<u32>::empty()
    &&& !t.in_transaction
    &&& t.task is Idle
    &&& t.table_lsns == s.table_lsns
    &&& t.lsn == s.lsn
    &&& t.committed_lsn == s.committed_lsn
    &&& t.tables == s.tables
    &&& t.bytes_sharded == s.bytes_sharded
}

/// A change that fails has the subscriber start over. One that is done counts with its
/// size, and one that goes on does not count yet.
pub proof fn law_changes_are_counted_when_done(
    s: State,
    oid: u32,
    row: Seq<ColumnView>,
    key: Option<Seq<ColumnView>>,
    old: Option<Seq<ColumnView>>,
    size: usize,
)
    requires
        s.connections > 0,
    ensures
        counts_when_done(s, s.on_data(inserted(oid, row), size), size),
        counts_when_done(s, s.on_data(deleted(oid, key, old), size), size),
        counts_when_done(s, s.on_data(updated(oid, IdentityView::Nothing, row), size), size),
        key matches Some(k) ==> counts_when_done(
            s,
            s.on_data(updated(oid, IdentityView::Key(k), row), size),
            size,
        ),
        old matches Some(o) ==> counts_when_done(
            s,
            s.on_data(updated(oid, IdentityView::Old(o), row), size),
            size,
        ),
{
    lemma_plain_counts(s, oid, row, size);
    if let Some(k) = key {
        lemma_key_counts(s, oid, k, row, size);
    }
    if let Some(o) = old {
        lemma_old_counts(s, oid, o, row, size);
    }
}

/// Whether a step counts a message with its size where it is done, and starts over
/// where it has failed.
pub open spec fn counts_when_done(s: State, step: Step, size: usize) -> bool {
    &&& step.1 is Failed ==> starts_over(s, step.0)
    &&& step.1 is Done ==> step.0.bytes_sharded == s.bytes_sharded.wrapping_add(size)
    &&& !(step.1 is Done) ==> step.0.bytes_sharded == s.bytes_sharded
}

proof fn lemma_plain_counts(s: State, oid: u32, row: Seq<ColumnView>, size: usize)
    requires
        s.connections > 0,
    ensures
        counts_when_done(s, s.on_data(updated(oid, IdentityView::Nothing, row), size), size),
{
}

proof fn lemma_key_counts(
    s: State,
    oid: u32,
    key: Seq<ColumnView>,
    row: Seq<ColumnView>,
    size: usize,
)
    requires
        s.connections > 0,
    ensures
        counts_when_done(s, s.on_data(updated(oid, IdentityView::Key(key), row), size), size),
{
}

proof fn lemma_old_counts(
    s: State,
    oid: u32,
    old: Seq<ColumnView>,
    row: Seq<ColumnView>,
    size: usize,
)
    requires
        s.connections > 0,
    ensures
        counts_when_done(s, s.on_data(updated(oid, IdentityView::Old(old), row), size), size),
{
}

} // verus!
