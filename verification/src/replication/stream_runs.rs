//! What holds of subscribers over all that happens to them.

use std::sync::Arc;
use vstd::prelude::*;

use super::messages::{
    DeleteView, IdentityView, InsertView, PayloadView, RelationView, UpdateView,
};
use super::move_keys::KeyMoveScope;
use super::presence::presence_of;
use super::routing::{OmniOwnership, ShardView};
use super::statements::{law_names_differ, nth_name, ParseView, StatementsView};
use super::stream::{
    filter_column, identity_key, initial, ActionView, EventView, State, Step, TaskView,
};
use super::stream_laws::{law_answers_keep_tables, law_messages_keep_tables};
use super::table::{KeyView, Table, TableView};
use super::tuple::{filled, some_toasted, ColumnView};
use crate::cluster::Cluster;
use crate::text::qualified;

verus! {

/// All that can happen to a subscriber.
pub enum Input {
    /// A message of the stream comes.
    Message { payload: Option<PayloadView>, size: usize },
    /// What was to be done has an outcome.
    Answer(EventView),
    /// The position is set.
    Position(i64),
    /// The keys that move are told.
    KeyMove(Arc<KeyMoveScope>),
    /// Connections are dropped with all that came over them.
    Reconnect,
    /// Connections were made.
    Connected(usize),
    /// Connections are dropped alone.
    ResetConnections,
}

impl State {
    /// What follows from something that happens.
    pub open spec fn takes(self, input: Input) -> Step {
        match input {
            Input::Message { payload, size } => self.on_data(payload, size),
            Input::Answer(event) => self.on_event(event),
            Input::Position(lsn) => (
                State { lsn_changed: lsn != self.lsn, lsn, committed_lsn: lsn, ..self },
                ActionView::Done(None),
            ),
            Input::KeyMove(scope) => (
                State { key_move: Some(scope), ..self },
                ActionView::Done(None),
            ),
            Input::Reconnect => (self.cleared(), ActionView::Done(None)),
            Input::Connected(connections) => (
                State { connections, ..self },
                ActionView::Done(None),
            ),
            Input::ResetConnections => (State { connections: 0, ..self }, ActionView::Done(None)),
        }
    }
}

/// Something that happens to one of several subscribers.
pub struct Turn {
    pub who: int,
    pub input: Input,
}

/// The names of the statements that are to be prepared.
pub open spec fn prepared_names(action: ActionView) -> Seq<Seq<char>> {
    match action {
        ActionView::Prepare(parses) => parses.map_values(|p: ParseView| p.name),
        _ => Seq::empty(),
    }
}

/// The names of all statements that some subscribers, which share a counter, prepare
/// in the course of what happens to them.
pub open spec fn names_in(subscribers: Seq<State>, counter: usize, turns: Seq<Turn>) -> Seq<
    Seq<char>,
>
    decreases turns.len(),
{
    if turns.len() == 0 {
        Seq::empty()
    } else {
        let who = turns[0].who;
        let (after, action) = subscribers[who].numbered(counter).takes(turns[0].input);
        prepared_names(action) + names_in(
            subscribers.update(who, after),
            after.counter,
            turns.skip(1),
        )
    }
}

/// The statements of one step take the next numbers, and are counted.
proof fn lemma_step_numbers(s: State, input: Input)
    requires
        s.counter + prepared_names(s.takes(input).1).len() <= usize::MAX,
    ensures
        numbers_in_turn(s, s.takes(input)),
{
    match input {
        Input::Message { payload, size } => {
            let here = State { size, ..s };
            if s.connections > 0 {
                lemma_dispatch_steps(here, payload);
            }
            lemma_kinds_number(here, s.takes(input));
        },
        Input::Answer(event) => {
            lemma_event_steps(s, event);
            lemma_kinds_number(s, s.takes(input));
        },
        _ => {
            lemma_kinds_number(s, s.takes(input));
        },
    }
}

/// The statements of all subscribers that share a counter are named by its numbers in
/// turn, from the first on, whatever happens to which of them; so no two of them ever
/// share a name, until the numbers have gone round.
pub proof fn law_statement_names_never_repeat(
    subscribers: Seq<State>,
    counter: usize,
    turns: Seq<Turn>,
)
    requires
        counter + names_in(subscribers, counter, turns).len() <= usize::MAX,
    ensures
        ({
            let names = names_in(subscribers, counter, turns);
            &&& forall|i: int|
                0 <= i < names.len() ==> #[trigger] names[i] == nth_name((counter + i) as nat)
            &&& names.no_duplicates()
        }),
    decreases turns.len(),
{
    let names = names_in(subscribers, counter, turns);
    if turns.len() > 0 {
        let who = turns[0].who;
        let s = subscribers[who].numbered(counter);
        let (after, action) = s.takes(turns[0].input);
        let now = prepared_names(action);
        let later = names_in(subscribers.update(who, after), after.counter, turns.skip(1));
        assert(names == now + later);
        lemma_step_numbers(s, turns[0].input);
        law_statement_names_never_repeat(
            subscribers.update(who, after),
            after.counter,
            turns.skip(1),
        );
        assert forall|i: int| 0 <= i < names.len() implies #[trigger] names[i] == nth_name(
            (counter + i) as nat,
        ) by {
            if i < now.len() {
                assert(names[i] == now[i]);
            } else {
                assert(names[i] == later[i - now.len()]);
            }
        }
    }
    assert forall|i: int, j: int|
        0 <= i < names.len() && 0 <= j < names.len() && i != j implies names[i] != names[j] by {
        law_names_differ((counter + i) as nat, (counter + j) as nat);
    }
}

/// The state of a subscriber after all that happened to it, each with the number that
/// the counter was at.
pub open spec fn after(s: State, inputs: Seq<(usize, Input)>) -> State
    decreases inputs.len(),
{
    if inputs.len() == 0 {
        s
    } else {
        after(s.numbered(inputs[0].0).takes(inputs[0].1).0, inputs.skip(1))
    }
}

/// Whether a message gives an identifier that is known no table of another destination.
pub open spec fn keeps_destination(s: State, payload: Option<PayloadView>) -> bool {
    match payload {
        Some(PayloadView::Relation(relation)) => names_same_destination(s, relation),
        _ => true,
    }
}

/// Whether an identifier, where it is known, stays with a table of the same
/// destination.
pub open spec fn names_same_destination(s: State, relation: RelationView) -> bool {
    let key = KeyView { schema: relation.namespace, name: relation.name };
    s.tables.contains_key(key) && s.table(relation.oid) is Some ==> destination_key(
        s.table(relation.oid)->0,
    ) == destination_key(s.tables[key])
}

/// Whether the source never uses an identifier for tables of different destinations
/// on the same connections.
pub open spec fn identifiers_stay(s: State, inputs: Seq<(usize, Input)>) -> bool
    decreases inputs.len(),
{
    inputs.len() == 0 || {
        &&& inputs[0].1 matches Input::Message { payload, .. } ==> keeps_destination(s, payload)
        &&& identifiers_stay(s.numbered(inputs[0].0).takes(inputs[0].1).0, inputs.skip(1))
    }
}

/// The table of the publication that the stream names.
pub open spec fn named_table(s: State, relation: RelationView) -> TableView {
    s.tables[KeyView { schema: relation.namespace, name: relation.name }]
}

/// The state once a table has been named, and its statements prepared where that is
/// asked for.
pub open spec fn announced(s: State, relation: RelationView) -> State {
    let (after, action) = s.on_relation(relation);
    if action is Prepare {
        after.on_event(EventView::Prepared).0
    } else {
        after
    }
}

/// Whether a statement inserts into, updates or deletes from a table.
pub open spec fn writes_to(query: Seq<char>, target: Seq<char>) -> bool {
    ||| ("INSERT INTO "@ + target).is_prefix_of(query)
    ||| ("UPDATE "@ + target).is_prefix_of(query)
    ||| ("DELETE FROM "@ + target).is_prefix_of(query)
}

/// Whether every statement that rows are applied with writes to a table.
pub open spec fn all_write_to(statements: StatementsView, target: Seq<char>) -> bool {
    &&& writes_to(statements.insert.query, target)
    &&& writes_to(statements.update.query, target)
    &&& writes_to(statements.delete.query, target)
    &&& statements.omni ==> writes_to(statements.upsert.query, target)
    &&& forall|mask: Seq<bool>| #[trigger]
        statements.update_shapes.contains_key(mask) ==> writes_to(
            statements.update_shapes[mask].query,
            target,
        )
}

proof fn lemma_new_statements_write(s: State, table: TableView, idx: Option<usize>)
    ensures
        all_write_to(s.new_statements(table, idx).0, table.target()),
{
    let statements = s.new_statements(table, idx).0;
    let target = table.target();
    let insert = "INSERT INTO "@ + target;
    assert(insert.is_prefix_of(table.insert_sql()));
    assert(insert.is_prefix_of(table.upsert_sql()));
    assert(insert.is_prefix_of(table.upsert_full_identity_sql()));
    assert(("UPDATE "@ + target).is_prefix_of(table.update_sql()));
    assert(("UPDATE "@ + target).is_prefix_of(table.update_full_identity_sql()));
    assert(("DELETE FROM "@ + target).is_prefix_of(table.delete_sql()));
    assert(("DELETE FROM "@ + target).is_prefix_of(table.delete_full_identity_sql()));
}

/// The table that the rows of a table go to.
pub open spec fn destination_key(table: TableView) -> KeyView {
    KeyView {
        schema: table.table.destination_schema(),
        name: table.table.destination_name(),
    }
}

/// Whether what is waited for will leave every statement writing to the right table.
pub open spec fn task_well_aimed(s: State) -> bool {
    match s.task {
        TaskView::Connect { payload } => keeps_destination(s, payload),
        TaskView::Prepare { oid, key, dest, statements, .. } => {
            &&& s.tables.contains_key(key)
            &&& destination_key(s.tables[key]) == dest
            &&& all_write_to(statements, qualified(dest.schema, dest.name))
            &&& forall|d: KeyView| #[trigger]
                s.keys.contains_key(d) && s.keys[d] == oid ==> d == dest
        },
        TaskView::Shape { oid, statement, .. } => s.table(oid) matches Some(table) ==> writes_to(
            statement.query,
            table.target(),
        ),
        _ => true,
    }
}

/// Whether the statements of every table that the stream has named are those of the
/// table that its rows go to, and so are those that are kept for partitions to come.
pub open spec fn well_aimed(s: State) -> bool {
    &&& forall|oid: u32| #[trigger]
        s.statements.contains_key(oid) ==> s.table(oid) is Some && all_write_to(
            s.statements[oid],
            s.table(oid)->0.target(),
        )
    &&& forall|d: KeyView| #[trigger]
        s.keys.contains_key(d) ==> s.statements.contains_key(s.keys[d]) && s.table(
            s.keys[d],
        ) is Some && destination_key(s.table(s.keys[d])->0) == d
    &&& task_well_aimed(s)
}

/// Whether a step gives its new statements the next numbers, and counts them.
spec fn numbers_in_turn(s: State, step: Step) -> bool {
    let names = prepared_names(step.1);
    &&& step.0.counter == s.counter + names.len()
    &&& forall|i: int|
        0 <= i < names.len() ==> #[trigger] names[i] == nth_name((s.counter + i) as nat)
}

/// Whether a step waits for nothing that changes statements.
spec fn plain_task(task: TaskView) -> bool {
    !(task is Connect) && !(task is Prepare) && !(task is Shape)
}

/// Whether a step leaves all statements as they were, or forgets them.
spec fn light(s: State, step: Step) -> bool {
    let t = step.0;
    &&& !(step.1 is Prepare)
    &&& t.counter == s.counter
    &&& t.tables == s.tables
    &&& plain_task(t.task)
    &&& ({
        ||| t.relations == s.relations && t.statements == s.statements && t.keys == s.keys
        ||| t.statements == Map::<u32, StatementsView>::empty() && t.keys == Map::<
            KeyView,
            u32,
        >::empty()
    })
}

/// Whether a step prepares an update of some columns.
spec fn shapes(s: State, step: Step) -> bool {
    let t = step.0;
    &&& t.tables == s.tables
    &&& t.relations == s.relations
    &&& t.statements == s.statements
    &&& t.keys == s.keys
    &&& t.counter == s.counter.wrapping_add(1)
    &&& t.task matches TaskView::Shape { oid, statement, .. } && {
        &&& step.1 == ActionView::Prepare(seq![statement])
        &&& statement.name == nth_name(s.counter as nat)
        &&& s.table(oid) matches Some(table) && writes_to(statement.query, table.target())
    }
}

/// Whether a step prepares the statements of a table.
spec fn prepares(s: State, step: Step) -> bool {
    let t = step.0;
    &&& t.tables == s.tables
    &&& t.relations == s.relations
    &&& t.statements == s.statements
    &&& t.keys == s.keys
    &&& t.task matches TaskView::Prepare { oid, key, dest, statements, .. } && {
        &&& s.tables.contains_key(key)
        &&& destination_key(s.tables[key]) == dest
        &&& all_write_to(statements, qualified(dest.schema, dest.name))
        &&& !s.keys.contains_key(dest)
        &&& exists|idx: Option<usize>| #[trigger]
            s.new_statements(s.tables[key], idx).0 == statements && step.1 == ActionView::Prepare(
                s.new_statements(s.tables[key], idx).1,
            ) && t.counter == s.new_statements(s.tables[key], idx).2
    }
}

/// Whether a table takes over the statements that are kept for its destination.
spec fn takes_over(s: State, step: Step, relation: RelationView) -> bool {
    let t = step.0;
    let key = KeyView { schema: relation.namespace, name: relation.name };
    let dest = destination_key(s.tables[key]);
    &&& !(step.1 is Prepare)
    &&& t.counter == s.counter
    &&& t.tables == s.tables
    &&& s.tables.contains_key(key)
    &&& s.keys.contains_key(dest)
    &&& s.statements.contains_key(s.keys[dest])
    &&& t.statements == s.statements.insert(relation.oid, s.statements[s.keys[dest]])
    &&& t.relations == s.relations.insert(relation.oid, key)
    &&& t.keys == s.keys
    &&& t.task is Idle
}

proof fn lemma_insert_is_light(s: State, insert: InsertView)
    ensures
        light(s, s.on_insert(insert)),
{
}

proof fn lemma_delete_is_light(s: State, delete: DeleteView, then: Option<InsertView>)
    ensures
        light(s, s.on_delete(delete, then)),
{
    let oid = delete.oid;
    if let Some(insert) = then {
        lemma_insert_is_light(s, insert);
        lemma_insert_is_light(s.marked(oid), insert);
    }
}

proof fn lemma_toasted_update(s: State, oid: u32, new: Seq<ColumnView>)
    ensures
        light(s, s.on_toasted_update(oid, new)) || shapes(s, s.on_toasted_update(oid, new)),
{
    if let Some(table) = s.table(oid) {
        let mask = presence_of(new, table.columns);
        assert(("UPDATE "@ + table.target()).is_prefix_of(table.update_partial_sql(mask)));
    }
}

proof fn lemma_update_steps(s: State, update: UpdateView)
    ensures
        light(s, s.on_update(update)) || shapes(s, s.on_update(update)),
{
    let oid = update.oid;
    let new = update.new;
    match update.identity {
        IdentityView::Key(key) => {
            lemma_delete_is_light(
                s,
                DeleteView { oid, key: Some(key), old: None },
                Some(InsertView { oid, row: new }),
            );
        },
        IdentityView::Old(old) => {
            lemma_delete_is_light(s, DeleteView { oid, key: None, old: Some(old) }, None);
            lemma_insert_is_light(s, InsertView { oid, row: filled(new, old) });
        },
        IdentityView::Nothing => {
            lemma_insert_is_light(s, InsertView { oid, row: new });
            lemma_toasted_update(s, oid, new);
            if let Some(table) = s.table(oid) {
                lemma_delete_is_light(
                    s,
                    DeleteView { oid, key: Some(identity_key(new, table.columns)), old: None },
                    None,
                );
            }
        },
    }
}

proof fn lemma_relation_steps(s: State, relation: RelationView)
    ensures
        ({
            let step = s.on_relation(relation);
            ||| light(s, step)
            ||| prepares(s, step) && step.0.task->Prepare_oid == relation.oid
                && step.0.task->Prepare_key == (KeyView {
                schema: relation.namespace,
                name: relation.name,
            })
            ||| takes_over(s, step, relation)
        }),
{
    let key = KeyView { schema: relation.namespace, name: relation.name };
    if s.tables.contains_key(key) {
        let table = s.tables[key];
        if let Ok(idx) = filter_column(table) {
            lemma_new_statements_write(s, table, idx);
            assert(s.new_statements(table, idx).0 == s.new_statements(s.tables[key], idx).0);
        }
    }
}

/// A step of one of the kinds.
spec fn known_kind(s: State, step: Step) -> bool {
    ||| light(s, step)
    ||| shapes(s, step)
    ||| prepares(s, step)
    ||| !(step.1 is Prepare) && step.0.counter == s.counter
}

proof fn lemma_dispatch_steps(s: State, payload: Option<PayloadView>)
    ensures
        known_kind(s, s.dispatch(payload)),
        !(payload matches Some(PayloadView::Relation(_))) ==> light(s, s.dispatch(payload))
            || shapes(s, s.dispatch(payload)),
{
    match payload {
        Some(PayloadView::Insert(insert)) => {
            lemma_insert_is_light(s, insert);
        },
        Some(PayloadView::Update(update)) => {
            lemma_update_steps(s, update);
        },
        Some(PayloadView::Delete(delete)) => {
            lemma_delete_is_light(s, delete, None);
        },
        Some(PayloadView::Relation(relation)) => {
            lemma_relation_steps(s, relation);
        },
        _ => {},
    }
}

proof fn lemma_moved_steps(
    s: State,
    oid: u32,
    new: Seq<ColumnView>,
    old: Seq<ColumnView>,
    complete: Seq<ColumnView>,
    new_shard: ShardView,
    old_shard: ShardView,
)
    ensures
        ({
            let step = s.on_moved(oid, new, old, complete, new_shard, old_shard);
            light(s, step) || shapes(s, step)
        }),
{
    if let Some(table) = s.table(oid) {
        let mask = presence_of(new, table.columns);
        assert(("UPDATE "@ + table.target()).is_prefix_of(
            table.update_full_identity_partial_set_sql(mask),
        ));
    }
}

proof fn lemma_event_steps(s: State, event: EventView)
    ensures
        known_kind(s, s.on_event(event)),
        ({
            let step = s.on_event(event);
            ||| light(s, step)
            ||| shapes(s, step)
            ||| s.task is Connect && event is Connected
            ||| (s.task is Prepare || s.task is Shape) && event is Prepared
        }),
{
    match (s.task, event) {
        (_, EventView::Failed(_)) => {},
        (TaskView::Connect { payload }, EventView::Connected(n)) => {
            let here = State { connections: n, ..s };
            lemma_dispatch_steps(here, payload);
            let step = here.dispatch(payload);
            assert(light(here, step) ==> light(s, step));
            assert(shapes(here, step) ==> shapes(s, step));
            if prepares(here, step) {
                let idx = choose|idx: Option<usize>| #[trigger]
                    here.new_statements(here.tables[step.0.task->Prepare_key], idx).0
                        == step.0.task->Prepare_statements && step.1 == ActionView::Prepare(
                        here.new_statements(here.tables[step.0.task->Prepare_key], idx).1,
                    ) && step.0.counter == here.new_statements(
                        here.tables[step.0.task->Prepare_key],
                        idx,
                    ).2;
                let table = s.tables[step.0.task->Prepare_key];
                assert(here.new_statements(table, idx) == s.new_statements(table, idx));
                assert(prepares(s, step));
            }
        },
        (TaskView::Move { oid, new, old, complete }, EventView::Routed(shards)) => {
            lemma_moved_steps(s, oid, new, old, complete, shards[0], shards[1]);
        },
        (TaskView::Sent { oid, then }, EventView::Sent) => {
            if let Some(insert) = then {
                lemma_insert_is_light(s.marked(oid), insert);
            }
        },
        _ => {},
    }
}

proof fn lemma_new_statements_number(s: State, table: TableView, idx: Option<usize>)
    requires
        s.counter + s.new_statements(table, idx).1.len() <= usize::MAX,
    ensures
        ({
            let (statements, parses, counter) = s.new_statements(table, idx);
            &&& counter == s.counter + parses.len()
            &&& forall|i: int|
                0 <= i < parses.len() ==> (#[trigger] parses[i]).name == nth_name(
                    (s.counter + i) as nat,
                )
        }),
{
}

proof fn lemma_kinds_number(s: State, step: Step)
    requires
        known_kind(s, step),
        s.counter + prepared_names(step.1).len() <= usize::MAX,
    ensures
        numbers_in_turn(s, step),
{
    if step.1 is Prepare {
        if prepares(s, step) {
            let key = step.0.task->Prepare_key;
            let idx = choose|idx: Option<usize>| #[trigger]
                s.new_statements(s.tables[key], idx).0 == step.0.task->Prepare_statements && step.1
                    == ActionView::Prepare(s.new_statements(s.tables[key], idx).1)
                    && step.0.counter == s.new_statements(s.tables[key], idx).2;
            lemma_new_statements_number(s, s.tables[key], idx);
        }
    }
}

proof fn lemma_light_keeps_aim(s: State, step: Step)
    requires
        well_aimed(s),
        light(s, step) || shapes(s, step),
    ensures
        well_aimed(step.0),
{
    let t = step.0;
    if t.relations == s.relations {
        assert forall|oid: u32| #[trigger] t.table(oid) == s.table(oid) by {}
    }
    assert forall|oid: u32| #[trigger] t.statements.contains_key(oid) implies t.table(
        oid,
    ) is Some && all_write_to(t.statements[oid], t.table(oid)->0.target()) by {
        assert(s.statements.contains_key(oid));
        assert(t.table(oid) == s.table(oid));
    }
    assert forall|d: KeyView| #[trigger] t.keys.contains_key(d) implies t.statements.contains_key(
        t.keys[d],
    ) && t.table(t.keys[d]) is Some && destination_key(t.table(t.keys[d])->0) == d by {
        assert(s.keys.contains_key(d));
        assert(t.table(t.keys[d]) == s.table(s.keys[d]));
    }
}

/// Naming a table keeps the aim, where its identifier stays with its destination.
proof fn lemma_relation_keeps_aim(s: State, relation: RelationView)
    requires
        well_aimed(s),
        names_same_destination(s, relation),
    ensures
        well_aimed(s.on_relation(relation).0),
{
    let step = s.on_relation(relation);
    let t = step.0;
    let oid = relation.oid;
    let key = KeyView { schema: relation.namespace, name: relation.name };
    lemma_relation_steps(s, relation);
    if light(s, step) {
        lemma_light_keeps_aim(s, step);
    } else if takes_over(s, step, relation) {
        let dest = destination_key(s.tables[key]);
        let known = s.keys[dest];
        assert(s.table(known) is Some);
        assert(s.statements.contains_key(known));
        assert(t.table(oid) == Some(s.tables[key]));
        assert(s.table(known)->0.target() == s.tables[key].target());
        assert forall|o: u32| #[trigger] t.statements.contains_key(o) implies t.table(o) is Some
            && all_write_to(t.statements[o], t.table(o)->0.target()) by {
            if o != oid {
                assert(s.statements.contains_key(o));
                assert(t.table(o) == s.table(o));
            }
        }
        assert forall|d: KeyView| #[trigger] t.keys.contains_key(d) implies t.statements.contains_key(
            t.keys[d],
        ) && t.table(t.keys[d]) is Some && destination_key(t.table(t.keys[d])->0) == d by {
            assert(s.keys.contains_key(d));
            if t.keys[d] != oid {
                assert(t.table(t.keys[d]) == s.table(s.keys[d]));
            }
        }
    } else {
        assert forall|o: u32| #[trigger] t.table(o) == s.table(o) by {}
        assert forall|o: u32| #[trigger] t.statements.contains_key(o) implies t.table(o) is Some
            && all_write_to(t.statements[o], t.table(o)->0.target()) by {
            assert(s.statements.contains_key(o));
        }
        assert forall|d: KeyView| #[trigger] t.keys.contains_key(d) implies t.statements.contains_key(
            t.keys[d],
        ) && t.table(t.keys[d]) is Some && destination_key(t.table(t.keys[d])->0) == d && (
        t.keys[d] == oid ==> d == destination_key(s.tables[key])) by {
            assert(s.keys.contains_key(d));
            assert(t.table(t.keys[d]) == s.table(s.keys[d]));
        }
    }
}

proof fn lemma_dispatch_keeps_aim(s: State, payload: Option<PayloadView>)
    requires
        well_aimed(s),
        keeps_destination(s, payload),
    ensures
        well_aimed(s.dispatch(payload).0),
{
    lemma_dispatch_steps(s, payload);
    match payload {
        Some(PayloadView::Relation(relation)) => {
            lemma_relation_keeps_aim(s, relation);
        },
        _ => {
            lemma_light_keeps_aim(s, s.dispatch(payload));
        },
    }
}

/// Whether two states know the same tables and statements.
spec fn same_aim(s: State, t: State) -> bool {
    &&& t.tables == s.tables
    &&& t.relations == s.relations
    &&& t.statements == s.statements
    &&& t.keys == s.keys
}

proof fn lemma_same_aim(s: State, t: State)
    requires
        well_aimed(s),
        same_aim(s, t),
        t.task == s.task || plain_task(t.task) || (t.task matches TaskView::Connect { payload }
            && keeps_destination(s, payload)),
    ensures
        well_aimed(t),
{
    assert forall|oid: u32| #[trigger] t.table(oid) == s.table(oid) by {}
    assert forall|oid: u32| #[trigger] t.statements.contains_key(oid) implies t.table(
        oid,
    ) is Some && all_write_to(t.statements[oid], t.table(oid)->0.target()) by {
        assert(s.statements.contains_key(oid));
    }
    assert forall|d: KeyView| #[trigger] t.keys.contains_key(d) implies t.statements.contains_key(
        t.keys[d],
    ) && t.table(t.keys[d]) is Some && destination_key(t.table(t.keys[d])->0) == d by {
        assert(s.keys.contains_key(d));
    }
}

proof fn lemma_message_keeps_aim(s: State, payload: Option<PayloadView>, size: usize)
    requires
        well_aimed(s),
        keeps_destination(s, payload),
    ensures
        well_aimed(s.on_data(payload, size).0),
        s.on_data(payload, size).0.tables == s.tables,
{
    let here = State { size, ..s };
    lemma_same_aim(s, here);
    if s.connections == 0 {
        lemma_same_aim(s, s.on_data(payload, size).0);
    } else {
        assert(here.tables == s.tables);
        assert(keeps_destination(here, payload));
        lemma_dispatch_keeps_aim(here, payload);
        law_messages_keep_tables(s, payload, size);
    }
}

proof fn lemma_prepared_keeps_aim(s: State)
    requires
        well_aimed(s),
        s.task is Prepare || s.task is Shape,
    ensures
        well_aimed(s.on_event(EventView::Prepared).0),
{
    let t = s.on_event(EventView::Prepared).0;
    match s.task {
        TaskView::Prepare { oid, key, lsn, dest, statements } => {
            let table = s.tables[key];
            assert(t.table(oid) == Some(table));
            assert(table.target() == qualified(dest.schema, dest.name));
            assert forall|o: u32| #[trigger] t.statements.contains_key(o) implies t.table(
                o,
            ) is Some && all_write_to(t.statements[o], t.table(o)->0.target()) by {
                if o != oid {
                    assert(s.statements.contains_key(o));
                    assert(t.table(o) == s.table(o));
                }
            }
            assert forall|d: KeyView| #[trigger]
                t.keys.contains_key(d) implies t.statements.contains_key(t.keys[d]) && t.table(
                t.keys[d],
            ) is Some && destination_key(t.table(t.keys[d])->0) == d by {
                if d != dest {
                    assert(s.keys.contains_key(d));
                    assert(s.keys[d] != oid);
                    assert(t.table(t.keys[d]) == s.table(s.keys[d]));
                }
            }
        },
        TaskView::Shape { oid, mask, statement, bind, shard } => {
            if s.statements.contains_key(oid) {
                assert forall|o: u32| #[trigger] t.table(o) == s.table(o) by {}
                assert forall|o: u32| #[trigger] t.statements.contains_key(o) implies t.table(
                    o,
                ) is Some && all_write_to(t.statements[o], t.table(o)->0.target()) by {
                    assert(s.statements.contains_key(o));
                    if o == oid {
                        let was = s.statements[oid].update_shapes;
                        let now = t.statements[oid].update_shapes;
                        assert forall|m: Seq<bool>| #[trigger] now.contains_key(m) implies writes_to(
                            now[m].query,
                            t.table(o)->0.target(),
                        ) by {
                            if m != mask {
                                assert(was.contains_key(m));
                            }
                        }
                    }
                }
                assert forall|d: KeyView| #[trigger]
                    t.keys.contains_key(d) implies t.statements.contains_key(t.keys[d]) && t.table(
                    t.keys[d],
                ) is Some && destination_key(t.table(t.keys[d])->0) == d by {
                    assert(s.keys.contains_key(d));
                }
            }
        },
        _ => {},
    }
}

proof fn lemma_answer_keeps_aim(s: State, event: EventView)
    requires
        well_aimed(s),
    ensures
        well_aimed(s.on_event(event).0),
        s.on_event(event).0.tables == s.tables,
{
    lemma_event_steps(s, event);
    law_answers_keep_tables(s, event);
    let step = s.on_event(event);
    if light(s, step) || shapes(s, step) {
        lemma_light_keeps_aim(s, step);
    } else {
        match (s.task, event) {
            (TaskView::Connect { payload }, EventView::Connected(n)) => {
                let here = State { connections: n, ..s };
                lemma_same_aim(s, here);
                lemma_dispatch_keeps_aim(here, payload);
            },
            _ => {
                lemma_prepared_keeps_aim(s);
            },
        }
    }
}

/// Every state that a subscriber can come to is well aimed: the statements of each
/// table write to the table that its rows go to.
pub proof fn law_every_state_is_well_aimed(
    cluster: Arc<Cluster>,
    tables: Seq<Table>,
    partition: OmniOwnership,
    inputs: Seq<(usize, Input)>,
)
    requires
        identifiers_stay(initial(cluster, tables, partition), inputs),
    ensures
        well_aimed(after(initial(cluster, tables, partition), inputs)),
        after(initial(cluster, tables, partition), inputs).tables == initial(
            cluster,
            tables,
            partition,
        ).tables,
{
    lemma_run_keeps_aim(initial(cluster, tables, partition), inputs);
}

proof fn lemma_run_keeps_aim(s: State, inputs: Seq<(usize, Input)>)
    requires
        well_aimed(s),
        identifiers_stay(s, inputs),
    ensures
        well_aimed(after(s, inputs)),
        after(s, inputs).tables == s.tables,
    decreases inputs.len(),
{
    if inputs.len() > 0 {
        let here = s.numbered(inputs[0].0);
        lemma_same_aim(s, here);
        match inputs[0].1 {
            Input::Message { payload, size } => {
                assert(keeps_destination(here, payload));
                lemma_message_keeps_aim(here, payload, size);
            },
            Input::Answer(event) => {
                lemma_answer_keeps_aim(here, event);
            },
            Input::Reconnect => {
                lemma_light_keeps_aim(here, here.takes(inputs[0].1));
            },
            _ => {
                lemma_same_aim(here, here.takes(inputs[0].1).0);
            },
        }
        lemma_run_keeps_aim(here.takes(inputs[0].1).0, inputs.skip(1));
    }
}

/// Two partitions of one parent share their statements, which write to the parent:
/// once the first has been named, naming the second prepares nothing, and both are
/// known by their own identifier. So it is with any other partition behind them, and
/// whatever the subscriber has been through.
pub proof fn law_partitions_share_statements(
    cluster: Arc<Cluster>,
    tables: Seq<Table>,
    partition: OmniOwnership,
    inputs: Seq<(usize, Input)>,
    a: RelationView,
    b: RelationView,
)
    requires
        identifiers_stay(initial(cluster, tables, partition), inputs),
        ({
            let s = after(initial(cluster, tables, partition), inputs);
            &&& s.tables.contains_key(KeyView { schema: a.namespace, name: a.name })
            &&& s.tables.contains_key(KeyView { schema: b.namespace, name: b.name })
            &&& named_table(s, a).fault() is None
            &&& named_table(s, b).fault() is None
            &&& filter_column(named_table(s, a)) is Ok
            &&& destination_key(named_table(s, a)) == destination_key(named_table(s, b))
            &&& names_same_destination(s, a)
            &&& names_same_destination(s, b)
        }),
    ensures
        ({
            let s = after(initial(cluster, tables, partition), inputs);
            let after = announced(announced(s, a), b);
            &&& s.on_relation(a).1 is Prepare || s.on_relation(a).1 == ActionView::Done(None)
            &&& announced(s, a).on_relation(b).1 == ActionView::Done(None)
            &&& after.counter == announced(s, a).counter
            &&& after.statements.contains_key(a.oid)
            &&& after.statements.contains_key(b.oid)
            &&& after.statements[a.oid] == after.statements[b.oid]
            &&& after.table(b.oid) == Some(named_table(s, b))
            &&& a.oid != b.oid ==> after.table(a.oid) == Some(named_table(s, a))
            &&& all_write_to(after.statements[a.oid], named_table(s, a).target())
            &&& all_write_to(after.statements[b.oid], named_table(s, a).target())
            &&& well_aimed(after)
        }),
{
    let s = after(initial(cluster, tables, partition), inputs);
    law_every_state_is_well_aimed(cluster, tables, partition, inputs);
    let table = named_table(s, a);
    let idx = filter_column(table)->Ok_0;
    lemma_new_statements_write(s, table, idx);
    lemma_relation_keeps_aim(s, a);
    let one = announced(s, a);
    if s.on_relation(a).1 is Prepare {
        lemma_prepared_keeps_aim(s.on_relation(a).0);
    }
    assert(well_aimed(one));
    assert(names_same_destination(one, b));
    lemma_relation_keeps_aim(one, b);
}

/// Whether two tables have the same statements, but for updates of some columns.
pub open spec fn same_statements(a: StatementsView, b: StatementsView) -> bool {
    a == StatementsView { update_shapes: a.update_shapes, ..b }
}

/// Tables that share their statements are written alike: an inserted row, a deleted
/// one and one that is updated as a whole go through the same statement with the
/// same parameters, whichever of the tables the stream names.
pub proof fn law_shared_statements_write_alike(
    s: State,
    a: u32,
    b: u32,
    row: Seq<ColumnView>,
    key: Option<Seq<ColumnView>>,
    old: Seq<ColumnView>,
    new_shard: ShardView,
    old_shard: ShardView,
)
    requires
        s.statements.contains_key(a),
        s.statements.contains_key(b),
        same_statements(s.statements[a], s.statements[b]),
        !s.applied(a),
        !s.applied(b),
        !some_toasted(row),
    ensures
        s.on_insert(InsertView { oid: a, row }).1 == s.on_insert(InsertView { oid: b, row }).1,
        s.on_delete(DeleteView { oid: a, key, old: Some(old) }, None).1 == s.on_delete(
            DeleteView { oid: b, key, old: Some(old) },
            None,
        ).1,
        s.null_column(a) is None ==> s.on_update(
            UpdateView { oid: a, identity: IdentityView::Nothing, new: row },
        ).1 == s.on_update(UpdateView { oid: b, identity: IdentityView::Nothing, new: row }).1,
        s.on_moved(a, row, old, row, new_shard, old_shard).1 == s.on_moved(
            b,
            row,
            old,
            row,
            new_shard,
            old_shard,
        ).1,
        s.on_insert(InsertView { oid: a, row }).1 matches ActionView::Route { parse, .. } ==> parse
            == s.statements[a].insert || (s.statements[a].omni && parse == s.statements[a].upsert),
        s.on_delete(DeleteView { oid: a, key, old: Some(old) }, None).1 matches ActionView::Route {
            parse,
            ..
        } ==> parse == s.statements[a].delete,
        s.null_column(a) is None ==> (s.on_update(
            UpdateView { oid: a, identity: IdentityView::Nothing, new: row },
        ).1 matches ActionView::Route { parse, .. } ==> parse == s.statements[a].update),
{
}

/// An update of some columns is prepared once for its table, and writes to the
/// table that the table's rows go to: a partition's go to the parent.
pub proof fn law_partial_updates_go_to_the_destination(
    s: State,
    oid: u32,
    new: Seq<ColumnView>,
    old: Seq<ColumnView>,
    new_shard: ShardView,
    old_shard: ShardView,
)
    requires
        s.table(oid) is Some,
    ensures
        s.on_toasted_update(oid, new).1 matches ActionView::Prepare(parses) ==> parses.len() == 1
            && writes_to(parses[0].query, s.table(oid)->0.target()),
        s.on_moved(oid, new, old, filled(new, old), new_shard, old_shard).1 matches
            ActionView::Prepare(parses) ==> parses.len() == 1 && writes_to(
            parses[0].query,
            s.table(oid)->0.target(),
        ),
{
    let table = s.table(oid)->0;
    let mask = presence_of(new, table.columns);
    let update = "UPDATE "@ + table.target();
    assert(update.is_prefix_of(table.update_partial_sql(mask)));
    assert(update.is_prefix_of(table.update_full_identity_partial_set_sql(mask)));
}

} // verus!
