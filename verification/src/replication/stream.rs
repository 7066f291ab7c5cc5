//! Applies the replication stream to the shards of the destination.
//!
//! Insert, update and delete messages become idempotent prepared statements. The
//! subscriber decides what is to be done next; whoever drives it talks to the
//! shards and reports back.

use std::collections::{HashMap, HashSet};
use std::sync::Arc;
use vstd::prelude::*;
use vstd::std_specs::iter::IteratorSpec;

use super::codec::{read_xlog, CopyData};
use super::error::{
    ensure_validation, reports, Error, ErrorResponse, Op, TableValidationError,
    TableValidationErrorKind,
};
use super::messages::{
    Begin, Commit, DeleteView, IdentityView, InsertView, PayloadView, Relation, RelationView,
    StatusUpdate, UpdateView, XLogPayload,
};
use super::move_keys::KeyMoveScope;
use super::presence::{none_set, presence_of, NonIdentityColumnsPresence};
use super::routing::{targets, targets_of, OmniOwnership, Shard, ShardView};
use super::statements::{
    no_statement, statement_of, Parse, ParseView, Statement, Statements, StatementsView,
};
use super::table::{
    Key, KeyView, PublicationTable, PublicationTableColumn, PublicationTableView, Table,
    TableView,
};
use super::tuple::{
    bind_of, filled, non_null_columns, null_column, only_toasted, sent_columns, some_toasted, Bind,
    BindView, Column, ColumnView, Delete, Identifier, Insert, Oid, TupleData, Update,
    UpdateIdentity,
};
use super::wire::{read_message, Message, OldRow};
use crate::assoc::AssocMap;
use crate::cluster::{first_primary, share, Cluster};
use crate::text::{str_eq, texts};

verus! {

/// A write to some connections. Before it is sent, no connection may have failed.
#[derive(Debug)]
pub struct Write {
    pub targets: Vec<usize>,
    pub bind: Bind,
    /// Whether the write is expected to touch a row of the one shard it goes to.
    pub direct: bool,
}

/// The contents of a [`Write`].
#[verifier::ext_equal]
pub struct WriteView {
    pub targets: Seq<usize>,
    pub bind: BindView,
    pub direct: bool,
}

impl View for Write {
    type V = WriteView;

    open spec fn view(&self) -> WriteView {
        WriteView { targets: self.targets@, bind: self.bind@, direct: self.direct }
    }
}

/// What is to be done next.
#[derive(Debug)]
pub enum Action {
    /// Connect to every shard.
    Connect,
    /// Prepare statements on every connection.
    Prepare(Vec<Parse>),
    /// Find the shards that parameters of a statement belong to.
    Route { binds: Vec<Bind>, parse: Parse },
    /// Send writes, one after another.
    Send(Vec<Write>),
    /// Wait until every connection has answered what was sent.
    Drain,
    /// Commit on every connection.
    Sync,
    /// Nothing: the message has been handled.
    Done(Option<StatusUpdate>),
    /// Nothing: the message could not be handled, and the connections are to be
    /// dropped.
    Failed(Error),
}

/// What has happened.
#[derive(Debug)]
pub enum Event {
    /// There is a connection to each of this many shards.
    Connected(usize),
    Prepared,
    /// The routes of the parameters, in order.
    Routed(Vec<Shard>),
    Sent,
    Drained,
    /// Every shard has committed, at this time.
    Synced { now: i64 },
    Failed(Error),
}

/// The contents of an [`Event`].
pub enum EventView {
    Connected(usize),
    Prepared,
    Routed(Seq<ShardView>),
    Sent,
    Drained,
    Synced { now: i64 },
    Failed(Fault),
}

/// Why a message could not be handled.
pub enum Fault {
    MissingKey,
    MissingData,
    /// A table that can't be replicated.
    Invalid { table: Seq<char>, kind: TableValidationErrorKind },
    BroadcastNullColumnMissing { table: Seq<char>, column: Seq<char> },
    ToastedIdentityColumn { table: Seq<char>, oid: u32 },
    ToastedRowMigration { table: Seq<char>, oid: u32 },
    FullIdentityMissingOld { table: Seq<char>, oid: u32, op: Op },
    /// Something else, which came from outside.
    Other(Error),
}

/// What an error stands for.
pub open spec fn fault_of(e: Error) -> Fault {
    match e {
        Error::MissingKey => Fault::MissingKey,
        Error::MissingData => Fault::MissingData,
        Error::TableValidation(found) => if found.0@.len() == 1 {
            Fault::Invalid { table: found.0@[0].table_name@, kind: found.0@[0].kind }
        } else {
            Fault::Other(e)
        },
        Error::BroadcastNullColumnMissing { table, column } => Fault::BroadcastNullColumnMissing {
            table: table@,
            column: column@,
        },
        Error::ToastedIdentityColumn { table, oid } => Fault::ToastedIdentityColumn {
            table: table@,
            oid: oid.0,
        },
        Error::ToastedRowMigration { table, oid } => Fault::ToastedRowMigration {
            table: table@,
            oid: oid.0,
        },
        Error::FullIdentityMissingOld { table, oid, op } => Fault::FullIdentityMissingOld {
            table: table@,
            oid: oid.0,
            op,
        },
        _ => Fault::Other(e),
    }
}

impl View for Event {
    type V = EventView;

    open spec fn view(&self) -> EventView {
        match self {
            Event::Connected(n) => EventView::Connected(*n),
            Event::Prepared => EventView::Prepared,
            Event::Routed(v) => EventView::Routed(v@.map_values(|s: Shard| s@)),
            Event::Sent => EventView::Sent,
            Event::Drained => EventView::Drained,
            Event::Synced { now } => EventView::Synced { now: *now },
            Event::Failed(e) => EventView::Failed(fault_of(*e)),
        }
    }
}

/// The contents of an [`Action`].
#[verifier::ext_equal]
pub enum ActionView {
    Connect,
    Prepare(Seq<ParseView>),
    Route { binds: Seq<BindView>, parse: ParseView },
    Send(Seq<WriteView>),
    Drain,
    Sync,
    Done(Option<StatusUpdate>),
    Failed(Fault),
}

impl View for Action {
    type V = ActionView;

    open spec fn view(&self) -> ActionView {
        match self {
            Action::Connect => ActionView::Connect,
            Action::Prepare(v) => ActionView::Prepare(v@.map_values(|p: Parse| p@)),
            Action::Route { binds, parse } => ActionView::Route {
                binds: binds@.map_values(|b: Bind| b@),
                parse: parse@,
            },
            Action::Send(v) => ActionView::Send(v@.map_values(|w: Write| w@)),
            Action::Drain => ActionView::Drain,
            Action::Sync => ActionView::Sync,
            Action::Done(s) => ActionView::Done(*s),
            Action::Failed(e) => ActionView::Failed(fault_of(*e)),
        }
    }
}

/// What the subscriber waits for.
#[derive(Debug)]
enum Task {
    Idle,
    /// Connections, to handle a message.
    Connect { payload: Option<XLogPayload> },
    /// The statements of a table.
    Prepare { oid: u32, key: Key, lsn: i64, dest: Key, statements: Statements },
    /// An update of some columns: it is sent to known shards, or routed first.
    Shape {
        oid: u32,
        present: NonIdentityColumnsPresence,
        statement: Statement,
        bind: Bind,
        shard: Option<Shard>,
    },
    /// The route of a write.
    Write { oid: u32, bind: Bind, track_missed: bool, then: Option<Insert> },
    /// The routes of a row after and before an update.
    Move { oid: u32, new: TupleData, old: TupleData, complete: TupleData },
    /// Writes.
    Sent { oid: u32, then: Option<Insert> },
    /// Answers of all shards, before a commit.
    Drain { end_lsn: i64 },
    /// The commit on all shards.
    Sync { end_lsn: i64 },
}

/// The contents of what the subscriber waits for.
#[verifier::ext_equal]
pub enum TaskView {
    Idle,
    Connect { payload: Option<PayloadView> },
    Prepare { oid: u32, key: KeyView, lsn: i64, dest: KeyView, statements: StatementsView },
    Shape {
        oid: u32,
        mask: Seq<bool>,
        statement: ParseView,
        bind: BindView,
        shard: Option<ShardView>,
    },
    Write { oid: u32, bind: BindView, track_missed: bool, then: Option<InsertView> },
    Move { oid: u32, new: Seq<ColumnView>, old: Seq<ColumnView>, complete: Seq<ColumnView> },
    Sent { oid: u32, then: Option<InsertView> },
    Drain { end_lsn: i64 },
    Sync { end_lsn: i64 },
}

spec fn shard_view(s: Option<Shard>) -> Option<ShardView> {
    match s {
        Some(s) => Some(s@),
        None => None,
    }
}

spec fn insert_view(i: Option<Insert>) -> Option<InsertView> {
    match i {
        Some(i) => Some(i@),
        None => None,
    }
}

/// The contents of an optional message.
pub open spec fn payload_view(p: Option<XLogPayload>) -> Option<PayloadView> {
    match p {
        Some(p) => Some(p@),
        None => None,
    }
}

impl View for Task {
    type V = TaskView;

    closed spec fn view(&self) -> TaskView {
        match self {
            Task::Idle => TaskView::Idle,
            Task::Connect { payload } => TaskView::Connect { payload: payload_view(*payload) },
            Task::Prepare { oid, key, lsn, dest, statements } => TaskView::Prepare {
                oid: *oid,
                key: key@,
                lsn: *lsn,
                dest: dest@,
                statements: statements@,
            },
            Task::Shape { oid, present, statement, bind, shard } => TaskView::Shape {
                oid: *oid,
                mask: present@,
                statement: statement@,
                bind: bind@,
                shard: shard_view(*shard),
            },
            Task::Write { oid, bind, track_missed, then } => TaskView::Write {
                oid: *oid,
                bind: bind@,
                track_missed: *track_missed,
                then: insert_view(*then),
            },
            Task::Move { oid, new, old, complete } => TaskView::Move {
                oid: *oid,
                new: new@,
                old: old@,
                complete: complete@,
            },
            Task::Sent { oid, then } => TaskView::Sent { oid: *oid, then: insert_view(*then) },
            Task::Drain { end_lsn } => TaskView::Drain { end_lsn: *end_lsn },
            Task::Sync { end_lsn } => TaskView::Sync { end_lsn: *end_lsn },
        }
    }
}

/// The state of a subscriber.
#[verifier::ext_equal]
pub struct State {
    pub cluster: Arc<Cluster>,
    /// The tables that the stream has named, by their identifier.
    pub relations: Map<u32, KeyView>,
    /// The tables of the publication.
    pub tables: Map<KeyView, TableView>,
    pub statements: Map<u32, StatementsView>,
    /// The table whose statements were prepared for a table of the destination.
    pub keys: Map<KeyView, u32>,
    /// The position up to which each table has been applied.
    pub table_lsns: Map<u32, i64>,
    /// The tables changed in the current transaction.
    pub changed_tables: Set<u32>,
    pub connections: usize,
    /// The position of the last commit, which is reported to the source.
    pub committed_lsn: i64,
    /// The position in the stream.
    pub lsn: i64,
    pub lsn_changed: bool,
    pub in_transaction: bool,
    pub bytes_sharded: usize,
    pub partition: OmniOwnership,
    /// The sharding keys that move, where the stream is that of a move of keys.
    pub key_move: Option<Arc<KeyMoveScope>>,
    /// The number of the next prepared statement, which its name holds: that of the
    /// counter that the subscriber was last given.
    pub counter: usize,
    pub task: TaskView,
    /// The size of the message that is being handled.
    pub size: usize,
}

/// A state and what is to be done in it.
pub type Step = (State, ActionView);

impl State {
    /// Whether a table has been copied or replayed past the current position.
    pub open spec fn applied(self, oid: u32) -> bool {
        self.table_lsns.contains_key(oid) && self.lsn <= self.table_lsns[oid]
    }

    /// The state once a table has been changed. In a transaction its position
    /// moves on commit, so that rows at the same position are not skipped.
    pub open spec fn marked(self, oid: u32) -> State {
        if self.in_transaction {
            State { changed_tables: self.changed_tables.insert(oid), ..self }
        } else {
            State { table_lsns: self.table_lsns.insert(oid, self.lsn), ..self }
        }
    }

    /// The state after a failure: no connections, and nothing that came over
    /// them.
    pub open spec fn cleared(self) -> State {
        State {
            connections: 0,
            relations: Map::empty(),
            statements: Map::empty(),
            keys: Map::empty(),
            changed_tables: Set::empty(),
            in_transaction: false,
            task: TaskView::Idle,
            ..self
        }
    }

    pub open spec fn failed(self, fault: Fault) -> Step {
        (self.cleared(), ActionView::Failed(fault))
    }

    /// The message has been handled.
    pub open spec fn finished(self, status: Option<StatusUpdate>) -> Step {
        (
            State {
                task: TaskView::Idle,
                bytes_sharded: self.bytes_sharded.wrapping_add(self.size),
                ..self
            },
            ActionView::Done(status),
        )
    }

    /// The table behind an identifier of the stream.
    pub open spec fn table(self, oid: u32) -> Option<TableView> {
        if self.relations.contains_key(oid) && self.tables.contains_key(self.relations[oid]) {
            Some(self.tables[self.relations[oid]])
        } else {
            None
        }
    }

    /// The column that has to be NULL for a row of a table to be applied.
    pub open spec fn null_column(self, oid: u32) -> Option<usize> {
        if self.statements.contains_key(oid) {
            self.statements[oid].null_column_idx
        } else {
            None
        }
    }

    /// Whether a row is one of those that are on every shard, where its table has
    /// such rows. An unchanged value stored out of line is not NULL.
    pub open spec fn member(self, oid: u32, row: Seq<ColumnView>) -> Option<bool> {
        match self.null_column(oid) {
            Some(i) => Some(i < row.len() && row[i as int].identifier == Identifier::Null),
            None => None,
        }
    }

    /// Parameters are to be routed, and then sent.
    pub open spec fn to_route(
        self,
        oid: u32,
        bind: BindView,
        parse: ParseView,
        track_missed: bool,
        then: Option<InsertView>,
    ) -> Step {
        (
            State { task: TaskView::Write { oid, bind, track_missed, then }, ..self },
            ActionView::Route { binds: seq![bind], parse },
        )
    }

    /// A write to the shards of a route.
    pub open spec fn write(self, shard: ShardView, bind: BindView, track_missed: bool) -> WriteView {
        WriteView {
            targets: targets_of(shard, self.connections as nat, self.partition),
            bind,
            direct: shard is Direct && track_missed,
        }
    }

    /// Writes are to be sent.
    pub open spec fn to_send(
        self,
        oid: u32,
        writes: Seq<WriteView>,
        then: Option<InsertView>,
    ) -> Step {
        (State { task: TaskView::Sent { oid, then }, ..self }, ActionView::Send(writes))
    }

    /// An inserted row: an upsert for a table on every shard, an insert for a
    /// sharded one. Of a table with a NULL filter, only rows with a NULL key are
    /// applied.
    pub open spec fn on_insert(self, insert: InsertView) -> Step {
        let oid = insert.oid;
        if self.applied(oid) {
            self.finished(None)
        } else if self.member(oid, insert.row) == Some(false) {
            self.marked(oid).finished(None)
        } else if !self.statements.contains_key(oid) {
            self.marked(oid).finished(None)
        } else {
            let statements = self.statements[oid];
            let parse = if statements.omni {
                statements.upsert
            } else {
                statements.insert
            };
            self.to_route(oid, bind_of(insert.row, parse.name), parse, true, None)
        }
    }

    /// What is left of a message, once its first change has been applied.
    pub open spec fn proceed(self, then: Option<InsertView>) -> Step {
        match then {
            Some(insert) => self.on_insert(insert),
            None => self.finished(None),
        }
    }

    /// A deleted row: by the whole old row where the replica identity is FULL, by
    /// the key otherwise. Of a table with a NULL filter every delete is applied,
    /// and may touch no row.
    pub open spec fn on_delete(self, delete: DeleteView, then: Option<InsertView>) -> Step {
        let oid = delete.oid;
        if self.applied(oid) {
            self.proceed(then)
        } else if !self.statements.contains_key(oid) {
            self.marked(oid).proceed(then)
        } else {
            let statements = self.statements[oid];
            let track_missed = statements.null_column_idx is None;
            if statements.full_identity {
                match delete.old {
                    Some(old) => self.to_route(
                        oid,
                        bind_of(old, statements.delete.name),
                        statements.delete,
                        track_missed,
                        then,
                    ),
                    None => match self.table(oid) {
                        Some(table) => self.failed(
                            Fault::FullIdentityMissingOld {
                                table: table.table.text(),
                                oid,
                                op: Op::Delete,
                            },
                        ),
                        None => self.failed(Fault::MissingKey),
                    },
                }
            } else {
                match delete.key {
                    Some(key) => self.to_route(
                        oid,
                        bind_of(non_null_columns(key), statements.delete.name),
                        statements.delete,
                        track_missed,
                        then,
                    ),
                    None => self.marked(oid).proceed(then),
                }
            }
        }
    }

    /// Why the new row of an update can't be routed: an unchanged value stored
    /// out of line stands for an identity column.
    pub open spec fn toasted_identity(self, oid: u32, new: Seq<ColumnView>) -> Option<Fault> {
        if some_toasted(new) {
            match self.table(oid) {
                Some(table) => if identity_toasted(new, table.columns) {
                    Some(Fault::ToastedIdentityColumn { table: table.publication, oid })
                } else {
                    None
                },
                None => Some(Fault::MissingKey),
            }
        } else {
            None
        }
    }

    /// An updated row. What the stream says of the row before it tells the replica
    /// identity: the old key means that the identity changed, the old row that the
    /// identity is FULL, nothing that the identity did not change.
    pub open spec fn on_update(self, update: UpdateView) -> Step {
        let oid = update.oid;
        if self.applied(oid) {
            self.finished(None)
        } else if !self.statements.contains_key(oid) {
            self.marked(oid).finished(None)
        } else {
            match update.identity {
                IdentityView::Key(key) => self.on_key_update(oid, key, update.new),
                IdentityView::Old(old) => self.on_old_update(oid, old, update.new),
                IdentityView::Nothing => self.on_plain_update(oid, update.new),
            }
        }
    }

    /// The identity changed: the old row is deleted by its key, the new one
    /// inserted. All of it must have been sent.
    pub open spec fn on_key_update(
        self,
        oid: u32,
        key: Seq<ColumnView>,
        new: Seq<ColumnView>,
    ) -> Step {
        match self.toasted_identity(oid, new) {
            Some(fault) => self.failed(fault),
            None => if some_toasted(new) {
                match self.table(oid) {
                    Some(table) => self.failed(
                        Fault::ToastedRowMigration { table: table.publication, oid },
                    ),
                    None => self.failed(Fault::MissingKey),
                }
            } else {
                self.on_delete(
                    DeleteView { oid, key: Some(key), old: None },
                    Some(InsertView { oid, row: new }),
                )
            },
        }
    }

    /// The replica identity is FULL. Where every new column is unchanged there is
    /// nothing to do. A row that leaves the set of those on every shard is
    /// deleted, one that enters it is inserted.
    pub open spec fn on_old_update(
        self,
        oid: u32,
        old: Seq<ColumnView>,
        new: Seq<ColumnView>,
    ) -> Step {
        if only_toasted(new) {
            self.marked(oid).finished(None)
        } else if self.null_column(oid) is Some {
            if new.len() != old.len() {
                self.failed(Fault::MissingData)
            } else if self.member(oid, filled(new, old)) == Some(false) {
                self.on_delete(DeleteView { oid, key: None, old: Some(old) }, None)
            } else if self.member(oid, old) == Some(false) {
                self.on_insert(InsertView { oid, row: filled(new, old) })
            } else {
                self.on_full_update(oid, old, new)
            }
        } else {
            self.on_full_update(oid, old, new)
        }
    }

    /// The rows after and before an update are routed, with what is unchanged
    /// taken from the old row.
    pub open spec fn on_full_update(
        self,
        oid: u32,
        old: Seq<ColumnView>,
        new: Seq<ColumnView>,
    ) -> Step {
        match self.table(oid) {
            None => self.failed(Fault::MissingKey),
            Some(_) => if new.len() != old.len() {
                self.failed(Fault::MissingData)
            } else {
                let parse = self.statements[oid].update;
                let complete = filled(new, old);
                (
                    State { task: TaskView::Move { oid, new, old, complete }, ..self },
                    ActionView::Route {
                        binds: seq![bind_of(complete, parse.name), bind_of(old, parse.name)],
                        parse,
                    },
                )
            },
        }
    }

    /// The identity did not change.
    pub open spec fn on_plain_update(self, oid: u32, new: Seq<ColumnView>) -> Step {
        match self.toasted_identity(oid, new) {
            Some(fault) => self.failed(fault),
            None => match self.member(oid, new) {
                Some(false) => match self.table(oid) {
                    Some(table) => self.on_delete(
                        DeleteView {
                            oid,
                            key: Some(identity_key(new, table.columns)),
                            old: None,
                        },
                        None,
                    ),
                    None => self.failed(Fault::MissingKey),
                },
                Some(true) => if some_toasted(new) {
                    self.on_toasted_update(oid, new)
                } else {
                    self.on_insert(InsertView { oid, row: new })
                },
                None => if some_toasted(new) {
                    self.on_toasted_update(oid, new)
                } else {
                    let parse = self.statements[oid].update;
                    self.to_route(oid, bind_of(new, parse.name), parse, true, None)
                },
            },
        }
    }

    /// Some columns are unchanged and were not sent: the others are updated. The
    /// statement for those columns is prepared once.
    pub open spec fn on_toasted_update(self, oid: u32, new: Seq<ColumnView>) -> Step {
        match self.table(oid) {
            None => self.failed(Fault::MissingKey),
            Some(table) => if new.len() != table.columns.len() {
                self.failed(Fault::MissingData)
            } else {
                let mask = presence_of(new, table.columns);
                if none_set(mask) {
                    self.marked(oid).finished(None)
                } else {
                    let shapes = self.statements[oid].update_shapes;
                    if shapes.contains_key(mask) {
                        let parse = shapes[mask];
                        self.to_route(
                            oid,
                            bind_of(sent_columns(new), parse.name),
                            parse,
                            true,
                            None,
                        )
                    } else {
                        let parse = statement_of(table.update_partial_sql(mask), self.counter);
                        self.to_shape(
                            oid,
                            mask,
                            parse,
                            bind_of(sent_columns(new), parse.name),
                            None,
                        )
                    }
                }
            },
        }
    }

    /// An update of some columns is to be prepared.
    pub open spec fn to_shape(
        self,
        oid: u32,
        mask: Seq<bool>,
        statement: ParseView,
        bind: BindView,
        shard: Option<ShardView>,
    ) -> Step {
        (
            State {
                counter: self.counter.wrapping_add(1),
                task: TaskView::Shape { oid, mask, statement, bind, shard },
                ..self
            },
            ActionView::Prepare(seq![statement]),
        )
    }

    /// The routes of a row after and before an update are known. Where they
    /// differ, the old row is deleted and the new one inserted; otherwise the row
    /// is updated in place.
    pub open spec fn on_moved(
        self,
        oid: u32,
        new: Seq<ColumnView>,
        old: Seq<ColumnView>,
        complete: Seq<ColumnView>,
        new_shard: ShardView,
        old_shard: ShardView,
    ) -> Step {
        if !self.statements.contains_key(oid) {
            self.failed(Fault::MissingKey)
        } else {
            let statements = self.statements[oid];
            if new_shard != old_shard {
                self.to_send(
                    oid,
                    seq![
                        self.write(old_shard, bind_of(old, statements.delete.name), true),
                        self.write(new_shard, bind_of(complete, statements.insert.name), true),
                    ],
                    None,
                )
            } else if !some_toasted(new) {
                self.to_send(
                    oid,
                    seq![self.write(new_shard, bind_of(old + new, statements.update.name), true)],
                    None,
                )
            } else {
                match self.table(oid) {
                    None => self.failed(Fault::MissingKey),
                    Some(table) => if new.len() != table.columns.len() {
                        self.failed(Fault::MissingData)
                    } else {
                        let mask = presence_of(new, table.columns);
                        let row = old + sent_columns(new);
                        if none_set(mask) {
                            self.marked(oid).finished(None)
                        } else if statements.update_shapes.contains_key(mask) {
                            let parse = statements.update_shapes[mask];
                            self.to_send(
                                oid,
                                seq![self.write(new_shard, bind_of(row, parse.name), true)],
                                None,
                            )
                        } else {
                            let parse = statement_of(
                                table.update_full_identity_partial_set_sql(mask),
                                self.counter,
                            );
                            self.to_shape(
                                oid,
                                mask,
                                parse,
                                bind_of(row, parse.name),
                                Some(new_shard),
                            )
                        }
                    },
                }
            }
        }
    }

    /// An update of some columns has been prepared.
    pub open spec fn on_shape(
        self,
        oid: u32,
        mask: Seq<bool>,
        statement: ParseView,
        bind: BindView,
        shard: Option<ShardView>,
    ) -> Step {
        if !self.statements.contains_key(oid) {
            self.failed(Fault::MissingKey)
        } else {
            let statements = self.statements[oid];
            let known = State {
                statements: self.statements.insert(
                    oid,
                    StatementsView {
                        update_shapes: statements.update_shapes.insert(mask, statement),
                        ..statements
                    },
                ),
                ..self
            };
            match shard {
                Some(shard) => known.to_send(oid, seq![known.write(shard, bind, true)], None),
                None => known.to_route(oid, bind, statement, true, None),
            }
        }
    }

    /// The state once the statements of a table are known.
    pub open spec fn with_relation(self, oid: u32, key: KeyView, lsn: i64) -> State {
        State {
            table_lsns: self.table_lsns.insert(oid, lsn),
            relations: self.relations.insert(oid, key),
            ..self
        }
    }

    /// The statements of a table, under the next names.
    pub open spec fn new_statements(self, table: TableView, null_column_idx: Option<usize>) -> (
        StatementsView,
        Seq<ParseView>,
        usize,
    ) {
        let c0 = self.counter;
        let c1 = c0.wrapping_add(1);
        let c2 = c1.wrapping_add(1);
        let c3 = c2.wrapping_add(1);
        let c4 = c3.wrapping_add(1);
        let omni = !table.sharded_by(self.cluster.sharded_tables);
        if table.full_identity() {
            let insert = statement_of(table.insert_sql(), c0);
            let update = statement_of(table.update_full_identity_sql(), c1);
            let delete = statement_of(table.delete_full_identity_sql(), c2);
            let upsert = if omni {
                statement_of(table.upsert_full_identity_sql(), c3)
            } else {
                no_statement()
            };
            (
                StatementsView {
                    insert,
                    upsert,
                    update,
                    delete,
                    omni,
                    full_identity: true,
                    update_shapes: Map::empty(),
                    null_column_idx,
                },
                if omni {
                    seq![insert, update, delete, upsert]
                } else {
                    seq![insert, update, delete]
                },
                if omni {
                    c4
                } else {
                    c3
                },
            )
        } else {
            let insert = statement_of(table.insert_sql(), c0);
            let upsert = statement_of(table.upsert_sql(), c1);
            let update = statement_of(table.update_sql(), c2);
            let delete = statement_of(table.delete_sql(), c3);
            (
                StatementsView {
                    insert,
                    upsert,
                    update,
                    delete,
                    omni,
                    full_identity: false,
                    update_shapes: Map::empty(),
                    null_column_idx,
                },
                seq![insert, upsert, update, delete],
                c4,
            )
        }
    }

    /// A table is named in the stream. One that is not in the publication is
    /// passed over. Partitions write to their parent and share its statements.
    pub open spec fn on_relation(self, relation: RelationView) -> Step {
        let key = KeyView { schema: relation.namespace, name: relation.name };
        if !self.tables.contains_key(key) {
            self.finished(None)
        } else {
            let table = self.tables[key];
            let dest = KeyView {
                schema: table.table.destination_schema(),
                name: table.table.destination_name(),
            };
            let oid = relation.oid;
            match table.fault() {
                Some(kind) => self.failed(Fault::Invalid { table: table.table.text(), kind }),
                None => if self.keys.contains_key(dest) {
                    let known = self.keys[dest];
                    if self.statements.contains_key(known) {
                        State {
                            statements: self.statements.insert(oid, self.statements[known]),
                            ..self
                        }.with_relation(oid, key, table.lsn.lsn).finished(None)
                    } else {
                        self.failed(Fault::MissingKey)
                    }
                } else {
                    match filter_column(table) {
                        Err(column) => self.failed(
                            Fault::BroadcastNullColumnMissing { table: table.table.text(), column },
                        ),
                        Ok(idx) => {
                            let (statements, parses, counter) = self.new_statements(table, idx);
                            (
                                State {
                                    counter,
                                    task: TaskView::Prepare {
                                        oid,
                                        key,
                                        lsn: table.lsn.lsn,
                                        dest,
                                        statements,
                                    },
                                    ..self
                                },
                                ActionView::Prepare(parses),
                            )
                        },
                    }
                },
            }
        }
    }

    /// The statements of a table have been prepared.
    pub open spec fn on_prepared(
        self,
        oid: u32,
        key: KeyView,
        lsn: i64,
        dest: KeyView,
        statements: StatementsView,
    ) -> Step {
        State {
            statements: self.statements.insert(oid, statements),
            keys: self.keys.insert(dest, oid),
            ..self
        }.with_relation(oid, key, lsn).finished(None)
    }

    /// A transaction starts: the position moves to its end, and is not reported.
    pub open spec fn on_begin(self, begin: Begin) -> Step {
        State {
            changed_tables: Set::empty(),
            lsn_changed: begin.final_transaction_lsn != self.lsn,
            lsn: begin.final_transaction_lsn,
            in_transaction: true,
            ..self
        }.finished(None)
    }

    /// Every shard has committed: the tables that were changed move to the
    /// transaction's position, and the position behind it is reported.
    pub open spec fn on_synced(self, end_lsn: i64, now: i64) -> Step {
        State {
            table_lsns: Map::new(
                |oid: u32| self.table_lsns.contains_key(oid) || self.changed_tables.contains(oid),
                |oid: u32|
                    if self.changed_tables.contains(oid) {
                        self.lsn
                    } else {
                        self.table_lsns[oid]
                    },
            ),
            changed_tables: Set::empty(),
            lsn_changed: end_lsn != self.lsn,
            lsn: end_lsn,
            committed_lsn: end_lsn,
            in_transaction: false,
            ..self
        }.finished(Some(status_of(end_lsn, now)))
    }

    /// A message, with connections to handle it.
    pub open spec fn dispatch(self, payload: Option<PayloadView>) -> Step {
        match payload {
            None => (State { task: TaskView::Idle, ..self }, ActionView::Done(None)),
            Some(PayloadView::Insert(insert)) => self.on_insert(insert),
            Some(PayloadView::Update(update)) => self.on_update(update),
            Some(PayloadView::Delete(delete)) => self.on_delete(delete, None),
            Some(PayloadView::Commit(commit)) => (
                State { task: TaskView::Drain { end_lsn: commit.end_lsn }, ..self },
                ActionView::Drain,
            ),
            Some(PayloadView::Relation(relation)) => self.on_relation(relation),
            Some(PayloadView::Begin(begin)) => self.on_begin(begin),
            Some(PayloadView::Other) => self.finished(None),
        }
    }

    /// A message of the stream. Connections are made when they are first needed.
    pub open spec fn on_data(self, payload: Option<PayloadView>, size: usize) -> Step {
        let here = State { size, ..self };
        if self.connections == 0 {
            (State { task: TaskView::Connect { payload }, ..here }, ActionView::Connect)
        } else {
            here.dispatch(payload)
        }
    }

    /// The state with a number for the next prepared statement.
    pub open spec fn numbered(self, counter: usize) -> State {
        State { counter, ..self }
    }

    /// Whether an event is one that the subscriber waits for.
    pub open spec fn awaits(self, event: EventView) -> bool {
        match (self.task, event) {
            (TaskView::Idle, _) => false,
            (_, EventView::Failed(_)) => true,
            (TaskView::Connect { .. }, EventView::Connected(_)) => true,
            (TaskView::Prepare { .. }, EventView::Prepared) => true,
            (TaskView::Shape { .. }, EventView::Prepared) => true,
            (TaskView::Write { .. }, EventView::Routed(shards)) => shards.len() == 1,
            (TaskView::Move { .. }, EventView::Routed(shards)) => shards.len() == 2,
            (TaskView::Sent { .. }, EventView::Sent) => true,
            (TaskView::Drain { .. }, EventView::Drained) => true,
            (TaskView::Sync { .. }, EventView::Synced { .. }) => true,
            _ => false,
        }
    }

    /// What follows from an event that the subscriber waits for. A failure drops
    /// the connections, which rolls back what was sent over them.
    pub open spec fn on_event(self, event: EventView) -> Step {
        match (self.task, event) {
            (_, EventView::Failed(fault)) => self.failed(fault),
            (TaskView::Connect { payload }, EventView::Connected(n)) => State {
                connections: n,
                ..self
            }.dispatch(payload),
            (
                TaskView::Prepare { oid, key, lsn, dest, statements },
                EventView::Prepared,
            ) => self.on_prepared(oid, key, lsn, dest, statements),
            (
                TaskView::Shape { oid, mask, statement, bind, shard },
                EventView::Prepared,
            ) => self.on_shape(oid, mask, statement, bind, shard),
            (
                TaskView::Write { oid, bind, track_missed, then },
                EventView::Routed(shards),
            ) => self.to_send(oid, seq![self.write(shards[0], bind, track_missed)], then),
            (
                TaskView::Move { oid, new, old, complete },
                EventView::Routed(shards),
            ) => self.on_moved(oid, new, old, complete, shards[0], shards[1]),
            (TaskView::Sent { oid, then }, EventView::Sent) => self.marked(oid).proceed(then),
            (TaskView::Drain { end_lsn }, EventView::Drained) => (
                State { task: TaskView::Sync { end_lsn }, ..self },
                ActionView::Sync,
            ),
            (TaskView::Sync { end_lsn }, EventView::Synced { now }) => self.on_synced(end_lsn, now),
            _ => self.finished(None),
        }
    }
}

/// What the subscriber reads of a message of the stream.
pub open spec fn payload_of(m: Message) -> PayloadView {
    match m {
        Message::Begin(b) => PayloadView::Begin(b),
        Message::Commit(c) => PayloadView::Commit(c),
        Message::Relation(r) => PayloadView::Relation(
            RelationView { oid: r.oid, namespace: r.namespace, name: r.name },
        ),
        Message::Insert { oid, row } => PayloadView::Insert(InsertView { oid, row }),
        Message::Update { oid, identity, new } => PayloadView::Update(
            UpdateView {
                oid,
                identity: match identity {
                    OldRow::Key(row) => IdentityView::Key(row),
                    OldRow::Old(row) => IdentityView::Old(row),
                    OldRow::Nothing => IdentityView::Nothing,
                },
                new,
            },
        ),
        Message::Delete { oid, key, old } => PayloadView::Delete(DeleteView { oid, key, old }),
        Message::Other => PayloadView::Other,
    }
}

/// The message in some bytes of the source, and its size.
pub open spec fn payload_in(data: Seq<u8>) -> (Option<PayloadView>, usize) {
    match read_xlog(data) {
        Some(xlog) => match read_message(xlog.bytes) {
            Some(m) => (Some(payload_of(m)), xlog.bytes.len() as usize),
            None => (None, 0),
        },
        None => (None, 0),
    }
}

/// What is done with a message does not depend on what was waited for before.
proof fn lemma_dispatch_ignores_task(a: State, b: State, payload: Option<PayloadView>)
    requires
        b == (State { task: TaskView::Idle, ..a }),
    ensures
        a.dispatch(payload) == b.dispatch(payload),
{
}

/// What is reported to the source: the position of the last commit.
pub open spec fn status_of(committed_lsn: i64, now: i64) -> StatusUpdate {
    StatusUpdate {
        last_applied: committed_lsn,
        last_flushed: committed_lsn,
        last_written: committed_lsn,
        system_clock: now,
        reply: 0,
    }
}

/// Whether an unchanged value stored out of line stands for an identity column.
pub open spec fn identity_toasted(
    row: Seq<ColumnView>,
    columns: Seq<PublicationTableColumn>,
) -> bool {
    exists|i: int|
        0 <= i < row.len() && i < columns.len() && (#[trigger] columns[i]).identity
            && row[i].identifier == Identifier::Toasted
}

/// The key of a row as the stream sends it: the identity columns, and NULL for
/// the others.
pub open spec fn identity_key(
    row: Seq<ColumnView>,
    columns: Seq<PublicationTableColumn>,
) -> Seq<ColumnView> {
    let n = if row.len() <= columns.len() {
        row.len()
    } else {
        columns.len()
    };
    Seq::new(
        n,
        |i: int|
            if columns[i].identity {
                row[i]
            } else {
                null_column()
            },
    )
}

/// The first column with a name.
pub open spec fn first_named(
    columns: Seq<PublicationTableColumn>,
    name: Seq<char>,
    i: int,
) -> bool {
    &&& 0 <= i < columns.len()
    &&& columns[i].name@ == name
    &&& forall|j: int| 0 <= j < i ==> (#[trigger] columns[j]).name@ != name
}

/// The position of the column that has to be NULL, where there is such a column;
/// its name, where the table does not have it.
pub open spec fn filter_column(table: TableView) -> Result<Option<usize>, Seq<char>> {
    match table.null_filter_column {
        None => Ok(None),
        Some(name) => if exists|i: int| #[trigger] first_named(table.columns, name, i) {
            Ok(
                Some(
                    (choose|i: int| #[trigger] first_named(table.columns, name, i)) as usize,
                ),
            )
        } else {
            Err(name)
        },
    }
}

/// Applies the replication stream of one source shard to the destination.
#[derive(Debug)]
pub struct StreamSubscriber {
    cluster: Arc<Cluster>,
    relations: HashMap<u32, Key>,
    tables: AssocMap<Key, Table>,
    statements: HashMap<u32, Statements>,
    keys: AssocMap<Key, u32>,
    table_lsns: HashMap<u32, i64>,
    changed_tables: HashSet<u32>,
    connections: usize,
    committed_lsn: i64,
    lsn: i64,
    lsn_changed: bool,
    in_transaction: bool,
    bytes_sharded: usize,
    partition: OmniOwnership,
    key_move: Option<Arc<KeyMoveScope>>,
    counter: usize,
    task: Task,
    size: usize,
}

impl View for StreamSubscriber {
    type V = State;

    closed spec fn view(&self) -> State {
        State {
            cluster: self.cluster,
            relations: self.relations@.map_values(|k: Key| k@),
            tables: self.tables@.map_values(|t: Table| t@),
            statements: self.statements@.map_values(|s: Statements| s@),
            keys: self.keys@,
            table_lsns: self.table_lsns@,
            changed_tables: self.changed_tables@,
            connections: self.connections,
            committed_lsn: self.committed_lsn,
            lsn: self.lsn,
            lsn_changed: self.lsn_changed,
            in_transaction: self.in_transaction,
            bytes_sharded: self.bytes_sharded,
            partition: self.partition,
            key_move: self.key_move,
            counter: self.counter,
            task: self.task@,
            size: self.size,
        }
    }
}

/// The tables of a publication, by schema and name; the last one counts.
pub open spec fn table_map(tables: Seq<Table>) -> Map<KeyView, TableView>
    decreases tables.len(),
{
    if tables.len() == 0 {
        Map::empty()
    } else {
        table_map(tables.drop_last()).insert(
            KeyView { schema: tables.last().table.schema@, name: tables.last().table.name@ },
            tables.last()@,
        )
    }
}

/// The state of a new subscriber.
pub open spec fn initial(
    cluster: Arc<Cluster>,
    tables: Seq<Table>,
    partition: OmniOwnership,
) -> State {
    State {
        cluster,
        relations: Map::empty(),
        tables: table_map(tables),
        statements: Map::empty(),
        keys: Map::empty(),
        table_lsns: Map::empty(),
        changed_tables: Set::empty(),
        connections: 0,
        committed_lsn: 0,
        lsn: 0,
        lsn_changed: true,
        in_transaction: false,
        bytes_sharded: 0,
        partition,
        key_move: None,
        counter: 1,
        task: TaskView::Idle,
        size: 0,
    }
}

fn identity_key_tuple(new: &TupleData, table: &Table) -> (out: TupleData)
    ensures
        out@ == identity_key(new@, table.columns@),
{
    let ghost all = identity_key(new@, table.columns@);
    let mut columns: Vec<Column> = Vec::new();
    let mut i: usize = 0;
    while i < new.columns.len() && i < table.columns.len()
        invariant
            i <= new.columns.len(),
            i <= table.columns.len(),
            all == identity_key(new@, table.columns@),
            super::tuple::column_views(columns@) == all.take(i as int),
        decreases new.columns.len() - i,
    {
        let ghost before = super::tuple::column_views(columns@);
        if table.columns[i].identity {
            columns.push(new.columns[i].copy());
        } else {
            columns.push(Column::null());
        }
        assert(super::tuple::column_views(columns@) =~= before.push(all[i as int]));
        assert(all.take(i + 1) =~= all.take(i as int).push(all[i as int]));
        i += 1;
    }
    assert(all.take(all.len() as int) =~= all);
    TupleData { columns }
}

fn has_toasted_identity(new: &TupleData, table: &Table) -> (b: bool)
    ensures
        b == identity_toasted(new@, table.columns@),
{
    let mut i: usize = 0;
    while i < new.columns.len() && i < table.columns.len()
        invariant
            i <= new.columns.len(),
            i <= table.columns.len(),
            forall|j: int|
                0 <= j < i ==> !((#[trigger] table.columns@[j]).identity && new@[j].identifier
                    == Identifier::Toasted),
        decreases new.columns.len() - i,
    {
        assert(new@[i as int] == new.columns@[i as int]@);
        if table.columns[i].identity && new.columns[i].identifier == Identifier::Toasted {
            return true;
        }
        i += 1;
    }
    false
}

fn null_filter(table: &Table) -> (out: Result<Option<usize>, Error>)
    ensures
        match out {
            Ok(idx) => filter_column(table@) == Ok::<Option<usize>, Seq<char>>(idx),
            Err(e) => filter_column(table@) matches Err(column) && fault_of(e)
                == (Fault::BroadcastNullColumnMissing { table: table.table@.text(), column }),
        },
{
    match &table.null_filter_column {
        None => Ok(None),
        Some(column) => {
            let mut i: usize = 0;
            while i < table.columns.len()
                invariant
                    i <= table.columns.len(),
                    table@.null_filter_column == Some(column@),
                    forall|j: int| 0 <= j < i ==> (#[trigger] table.columns@[j]).name@ != column@,
                decreases table.columns.len() - i,
            {
                if str_eq(table.columns[i].name.as_str(), column.as_str()) {
                    proof {
                        assert(first_named(table@.columns, column@, i as int));
                        let k = choose|k: int| #[trigger] first_named(table@.columns, column@, k);
                        assert(first_named(table@.columns, column@, k));
                        if k < i {
                            assert(table.columns@[k].name@ != column@);
                        } else if i < k {
                            assert(table.columns@[i as int].name@ != column@);
                        }
                    }
                    return Ok(Some(i));
                }
                i += 1;
            }
            assert forall|k: int| !(#[trigger] first_named(table@.columns, column@, k)) by {
                if first_named(table@.columns, column@, k) {
                    assert(table.columns@[k].name@ != column@);
                }
            }
            Err(
                Error::BroadcastNullColumnMissing {
                    table: table.table.to_text(),
                    column: column.clone(),
                },
            )
        },
    }
}

impl StreamSubscriber {
    /// A subscriber that has seen nothing of the stream.
    pub fn new(cluster: &Arc<Cluster>, tables: &Vec<Table>, partition: OmniOwnership) -> (out: Self)
        ensures
            out@ == initial(*cluster, tables@, partition),
    {
        let mut map: AssocMap<Key, Table> = AssocMap::new();
        let mut i: usize = 0;
        assert(tables@.take(0).len() == 0);
        assert(map@.map_values(|t: Table| t@) =~= table_map(tables@.take(0)));
        while i < tables.len()
            invariant
                i <= tables.len(),
                map@.map_values(|t: Table| t@) == table_map(tables@.take(i as int)),
            decreases tables.len() - i,
        {
            let ghost before = map@;
            assert(tables@.take(i + 1).drop_last() =~= tables@.take(i as int));
            let table: Table = tables[i].clone();
            let key: Key = tables[i].key();
            map.insert(key, table);
            assert(map@.map_values(|t: Table| t@) =~= before.map_values(|t: Table| t@).insert(
                key@,
                table@,
            ));
            i += 1;
        }
        assert(tables@.take(tables@.len() as int) =~= tables@);
        StreamSubscriber {
            cluster: share(cluster),
            relations: HashMap::new(),
            tables: map,
            statements: HashMap::new(),
            keys: AssocMap::new(),
            table_lsns: HashMap::new(),
            changed_tables: HashSet::new(),
            connections: 0,
            committed_lsn: 0,
            lsn: 0,
            lsn_changed: true,
            in_transaction: false,
            bytes_sharded: 0,
            partition,
            key_move: None,
            counter: 1,
            task: Task::Idle,
            size: 0,
        }
    }

    /// The stream is that of a move of some sharding keys.
    pub fn set_key_move(&mut self, scope: Arc<KeyMoveScope>)
        ensures
            final(self)@ == (State { key_move: Some(scope), ..old(self)@ }),
    {
        self.key_move = Some(scope);
        assert(self@ =~= (State { key_move: Some(scope), ..old(self)@ }));
    }

    /// The sharding keys that move, where the stream is that of a move of keys. Changes
    /// of other keys are not to be handed on.
    pub fn key_move(&self) -> (out: Option<&Arc<KeyMoveScope>>)
        ensures
            match out {
                Some(scope) => self@.key_move == Some(*scope),
                None => self@.key_move is None,
            },
    {
        self.key_move.as_ref()
    }

    /// Whether a table has been copied or replayed past the current position.
    pub fn lsn_applied(&self, oid: &Oid) -> (b: bool)
        ensures
            b == self@.applied(oid.0),
    {
        broadcast use vstd::std_specs::hash::group_hash_axioms;

        match self.table_lsns.get(&oid.0) {
            Some(lsn) => self.lsn <= *lsn,
            None => false,
        }
    }

    fn mark_table_changed(&mut self, oid: u32)
        ensures
            final(self)@ == old(self)@.marked(oid),
    {
        broadcast use vstd::std_specs::hash::group_hash_axioms;

        if self.in_transaction {
            self.changed_tables.insert(oid);
        } else {
            self.table_lsns.insert(oid, self.lsn);
        }
        assert(self@ =~= old(self)@.marked(oid));
    }

    fn clear(&mut self)
        ensures
            final(self)@ == old(self)@.cleared(),
    {
        self.connections = 0;
        self.relations.clear();
        self.statements.clear();
        self.keys.clear();
        self.changed_tables.clear();
        self.in_transaction = false;
        self.task = Task::Idle;
        assert(self@ =~= old(self)@.cleared());
    }

    fn fail(&mut self, e: Error) -> (action: Action)
        ensures
            (final(self)@, action@) == old(self)@.failed(fault_of(e)),
    {
        self.clear();
        Action::Failed(e)
    }

    fn finish(&mut self, status: Option<StatusUpdate>) -> (action: Action)
        ensures
            (final(self)@, action@) == old(self)@.finished(status),
    {
        self.task = Task::Idle;
        self.bytes_sharded = self.bytes_sharded.wrapping_add(self.size);
        assert(self@ =~= old(self)@.finished(status).0);
        Action::Done(status)
    }

    fn hybrid_column(&self, oid: u32) -> (out: Option<usize>)
        ensures
            out == self@.null_column(oid),
    {
        broadcast use vstd::std_specs::hash::group_hash_axioms;

        match self.statements.get(&oid) {
            Some(statements) => statements.null_column_idx,
            None => None,
        }
    }

    fn hybrid_member(&self, oid: u32, tuple: &TupleData) -> (out: Option<bool>)
        ensures
            out == self@.member(oid, tuple@),
    {
        match self.hybrid_column(oid) {
            Some(i) => {
                if i < tuple.columns.len() {
                    assert(tuple@[i as int] == tuple.columns@[i as int]@);
                    Some(tuple.columns[i].identifier == Identifier::Null)
                } else {
                    Some(false)
                }
            },
            None => None,
        }
    }

    fn get_table(&self, oid: u32) -> (out: Option<&Table>)
        ensures
            match out {
                Some(t) => self@.table(oid) == Some(t@),
                None => self@.table(oid) is None,
            },
    {
        broadcast use vstd::std_specs::hash::group_hash_axioms;

        match self.relations.get(&oid) {
            Some(key) => self.tables.get(key),
            None => None,
        }
    }

    fn route(
        &mut self,
        oid: u32,
        bind: Bind,
        parse: Parse,
        track_missed: bool,
        then: Option<Insert>,
    ) -> (action: Action)
        ensures
            (final(self)@, action@) == old(self)@.to_route(
                oid,
                bind@,
                parse@,
                track_missed,
                insert_view(then),
            ),
    {
        let copy: Bind = bind.copy();
        let mut binds: Vec<Bind> = Vec::new();
        binds.push(copy);
        self.task = Task::Write { oid, bind, track_missed, then };
        let action: Action = Action::Route { binds, parse };
        proof {
            let expected = old(self)@.to_route(oid, bind@, parse@, track_missed, insert_view(then));
            assert(self@ =~= expected.0);
            assert(action@->binds =~= seq![bind@]);
        }
        action
    }

    fn insert(&mut self, insert: Insert) -> (action: Action)
        ensures
            (final(self)@, action@) == old(self)@.on_insert(insert@),
    {
        broadcast use vstd::std_specs::hash::group_hash_axioms;

        let oid: u32 = insert.oid.0;
        if self.lsn_applied(&insert.oid) {
            return self.finish(None);
        }
        if self.hybrid_member(oid, &insert.tuple_data) == Some(false) {
            self.mark_table_changed(oid);
            return self.finish(None);
        }
        let parse: Parse = match self.statements.get(&oid) {
            Some(statements) => {
                if statements.omni {
                    statements.upsert.parse().copy()
                } else {
                    statements.insert.parse().copy()
                }
            },
            None => {
                self.mark_table_changed(oid);
                return self.finish(None);
            },
        };
        let bind: Bind = insert.tuple_data.to_bind(parse.name.as_str());
        self.route(oid, bind, parse, true, None)
    }

    fn proceed(&mut self, then: Option<Insert>) -> (action: Action)
        ensures
            (final(self)@, action@) == old(self)@.proceed(insert_view(then)),
    {
        match then {
            Some(insert) => self.insert(insert),
            None => self.finish(None),
        }
    }

    fn delete(&mut self, delete: Delete, then: Option<Insert>) -> (action: Action)
        ensures
            (final(self)@, action@) == old(self)@.on_delete(delete@, insert_view(then)),
    {
        broadcast use vstd::std_specs::hash::group_hash_axioms;

        let oid: u32 = delete.oid.0;
        if self.lsn_applied(&delete.oid) {
            return self.proceed(then);
        }
        let (full_identity, parse, track_missed): (bool, Parse, bool) = match self.statements.get(
            &oid,
        ) {
            Some(statements) => (
                statements.full_identity,
                statements.delete.parse().copy(),
                statements.null_column_idx.is_none(),
            ),
            None => {
                self.mark_table_changed(oid);
                return self.proceed(then);
            },
        };
        let tuple: TupleData = if full_identity {
            match delete.old {
                Some(old) => old,
                None => {
                    let e: Error = match self.get_table(oid) {
                        Some(table) => Error::FullIdentityMissingOld {
                            table: table.table.to_text(),
                            oid: delete.oid,
                            op: Op::Delete,
                        },
                        None => Error::MissingKey,
                    };
                    return self.fail(e);
                },
            }
        } else {
            match delete.key_non_null() {
                Some(key) => key,
                None => {
                    self.mark_table_changed(oid);
                    return self.proceed(then);
                },
            }
        };
        let bind: Bind = tuple.to_bind(parse.name.as_str());
        self.route(oid, bind, parse, track_missed, then)
    }

    /// Fails with an update whose identity columns were not all sent, and with one
    /// of a table that is not known.
    fn check_toasted_identity(&self, oid: u32, new: &TupleData) -> (out: Result<(), Error>)
        ensures
            match out {
                Ok(_) => self@.toasted_identity(oid, new@) is None,
                Err(e) => self@.toasted_identity(oid, new@) == Some(fault_of(e)),
            },
    {
        if new.has_toasted() {
            match self.get_table(oid) {
                Some(table) => {
                    if has_toasted_identity(new, table) {
                        return Err(
                            Error::ToastedIdentityColumn {
                                table: table.publication.clone(),
                                oid: Oid(oid),
                            },
                        );
                    }
                },
                None => {
                    return Err(Error::MissingKey);
                },
            }
        }
        Ok(())
    }

    fn shape_of(&self, oid: u32, present: &NonIdentityColumnsPresence) -> (out: Option<Parse>)
        requires
            self@.statements.contains_key(oid),
        ensures
            match out {
                Some(p) => self@.statements[oid].update_shapes.contains_key(present@)
                    && self@.statements[oid].update_shapes[present@] == p@,
                None => !self@.statements[oid].update_shapes.contains_key(present@),
            },
    {
        broadcast use vstd::std_specs::hash::group_hash_axioms;

        match self.statements.get(&oid) {
            Some(statements) => match statements.shape(present) {
                Some(statement) => Some(statement.parse().copy()),
                None => None,
            },
            None => None,
        }
    }

    fn prepare_shape(
        &mut self,
        oid: u32,
        present: NonIdentityColumnsPresence,
        sql: String,
        row: &TupleData,
        shard: Option<Shard>,
    ) -> (action: Action)
        ensures
            ({
                let parse = statement_of(sql@, old(self)@.counter);
                (final(self)@, action@) == old(self)@.to_shape(
                    oid,
                    present@,
                    parse,
                    bind_of(row@, parse.name),
                    shard_view(shard),
                )
            }),
    {
        let ghost before = self@;
        let statement: Statement = Statement::new(sql, &mut self.counter);
        let parse: Parse = statement.parse().copy();
        let bind: Bind = row.to_bind(parse.name.as_str());
        let mut list: Vec<Parse> = Vec::new();
        list.push(parse);
        let ghost expected = before.to_shape(
            oid,
            present@,
            statement@,
            bind@,
            shard_view(shard),
        );
        self.task = Task::Shape { oid, present, statement, bind, shard };
        let action: Action = Action::Prepare(list);
        proof {
            assert(self@ =~= expected.0);
            assert(action@->Prepare_0 =~= seq![parse@]);
        }
        action
    }

    fn update_with_toasted(&mut self, oid: u32, new: &TupleData) -> (action: Action)
        requires
            old(self)@.statements.contains_key(oid),
        ensures
            (final(self)@, action@) == old(self)@.on_toasted_update(oid, new@),
    {
        let (present, known, sql): (NonIdentityColumnsPresence, Option<Parse>, String) =
            match self.get_table(oid) {
            None => {
                return self.fail(Error::MissingKey);
            },
            Some(table) => match NonIdentityColumnsPresence::from_tuple(new, table) {
                Err(e) => {
                    return self.fail(e);
                },
                Ok(present) => {
                    let known: Option<Parse> = self.shape_of(oid, &present);
                    let sql: String = table.update_partial(&present);
                    (present, known, sql)
                },
            },
        };
        if present.no_non_identity_present() {
            self.mark_table_changed(oid);
            return self.finish(None);
        }
        let partial: TupleData = new.partial();
        match known {
            Some(parse) => {
                let bind: Bind = partial.to_bind(parse.name.as_str());
                self.route(oid, bind, parse, true, None)
            },
            None => self.prepare_shape(oid, present, sql, &partial, None),
        }
    }

    fn update_full_identity(&mut self, oid: u32, old_row: TupleData, new: TupleData) -> (action:
        Action)
        requires
            old(self)@.statements.contains_key(oid),
        ensures
            (final(self)@, action@) == old(self)@.on_full_update(oid, old_row@, new@),
    {
        broadcast use vstd::std_specs::hash::group_hash_axioms;

        if self.get_table(oid).is_none() {
            return self.fail(Error::MissingKey);
        }
        let complete: TupleData = match new.fill_toasted_from(&old_row) {
            Some(complete) => complete,
            None => {
                return self.fail(Error::MissingData);
            },
        };
        let parse: Parse = match self.statements.get(&oid) {
            Some(statements) => statements.update.parse().copy(),
            None => {
                return self.fail(Error::MissingKey);
            },
        };
        let mut binds: Vec<Bind> = Vec::new();
        binds.push(complete.to_bind(parse.name.as_str()));
        binds.push(old_row.to_bind(parse.name.as_str()));
        let ghost expected = old(self)@.on_full_update(oid, old_row@, new@);
        self.task = Task::Move { oid, new, old: old_row, complete };
        let action: Action = Action::Route { binds, parse };
        proof {
            assert(self@ =~= expected.0);
            assert(action@->binds =~= seq![
                bind_of(complete@, parse@.name),
                bind_of(old_row@, parse@.name),
            ]);
        }
        action
    }

    fn update_key(&mut self, oid: Oid, key: TupleData, new: TupleData) -> (action: Action)
        ensures
            (final(self)@, action@) == old(self)@.on_key_update(oid.0, key@, new@),
    {
        match self.check_toasted_identity(oid.0, &new) {
            Err(e) => {
                return self.fail(e);
            },
            Ok(_) => {},
        }
        if new.has_toasted() {
            let e: Error = match self.get_table(oid.0) {
                Some(table) => Error::ToastedRowMigration { table: table.publication.clone(), oid },
                None => Error::MissingKey,
            };
            return self.fail(e);
        }
        let delete: Delete = Delete { oid, key: Some(key), old: None };
        let insert: Insert = Insert { oid, tuple_data: new };
        self.delete(delete, Some(insert))
    }

    fn update_old(&mut self, oid: Oid, old_row: TupleData, new: TupleData) -> (action: Action)
        requires
            old(self)@.statements.contains_key(oid.0),
        ensures
            (final(self)@, action@) == old(self)@.on_old_update(oid.0, old_row@, new@),
    {
        if new.all_toasted() {
            self.mark_table_changed(oid.0);
            return self.finish(None);
        }
        if self.hybrid_column(oid.0).is_some() {
            let complete: TupleData = match new.fill_toasted_from(&old_row) {
                Some(complete) => complete,
                None => {
                    return self.fail(Error::MissingData);
                },
            };
            if self.hybrid_member(oid.0, &complete) == Some(false) {
                // The row left the set, or was never in it: a delete finds it or not.
                return self.delete(Delete { oid, key: None, old: Some(old_row) }, None);
            }
            if self.hybrid_member(oid.0, &old_row) == Some(false) {
                // The row entered the set.
                return self.insert(Insert { oid, tuple_data: complete });
            }
        }
        self.update_full_identity(oid.0, old_row, new)
    }

    fn update_plain(&mut self, oid: Oid, new: TupleData) -> (action: Action)
        requires
            old(self)@.statements.contains_key(oid.0),
        ensures
            (final(self)@, action@) == old(self)@.on_plain_update(oid.0, new@),
    {
        broadcast use vstd::std_specs::hash::group_hash_axioms;

        match self.check_toasted_identity(oid.0, &new) {
            Err(e) => {
                return self.fail(e);
            },
            Ok(_) => {},
        }
        let member: Option<bool> = self.hybrid_member(oid.0, &new);
        if member == Some(false) {
            // The row left the set, or was never in it: a delete finds it or not.
            let key: TupleData = match self.get_table(oid.0) {
                Some(table) => identity_key_tuple(&new, table),
                None => {
                    return self.fail(Error::MissingKey);
                },
            };
            return self.delete(Delete { oid, key: Some(key), old: None }, None);
        }
        if new.has_toasted() {
            return self.update_with_toasted(oid.0, &new);
        }
        if member == Some(true) {
            // The upsert puts in a row that entered the set and overwrites one that
            // stayed in it.
            return self.insert(Insert { oid, tuple_data: new });
        }
        let parse: Parse = match self.statements.get(&oid.0) {
            Some(statements) => statements.update.parse().copy(),
            None => {
                return self.fail(Error::MissingKey);
            },
        };
        let bind: Bind = new.to_bind(parse.name.as_str());
        self.route(oid.0, bind, parse, true, None)
    }

    fn update(&mut self, update: Update) -> (action: Action)
        ensures
            (final(self)@, action@) == old(self)@.on_update(update@),
    {
        broadcast use vstd::std_specs::hash::group_hash_axioms;

        if self.lsn_applied(&update.oid) {
            return self.finish(None);
        }
        if !self.statements.contains_key(&update.oid.0) {
            self.mark_table_changed(update.oid.0);
            return self.finish(None);
        }
        match update.identity {
            UpdateIdentity::Key(key) => self.update_key(update.oid, key, update.new),
            UpdateIdentity::Old(old_row) => self.update_old(update.oid, old_row, update.new),
            UpdateIdentity::Nothing => self.update_plain(update.oid, update.new),
        }
    }

    fn write_to(&self, shard: &Shard, bind: Bind, track_missed: bool) -> (out: Write)
        ensures
            out@ == self@.write(shard@, bind@, track_missed),
    {
        Write {
            targets: targets(shard, self.connections, &self.partition),
            bind,
            direct: shard.is_direct() && track_missed,
        }
    }

    fn send(&mut self, oid: u32, writes: Vec<Write>, then: Option<Insert>) -> (action: Action)
        ensures
            (final(self)@, action@) == old(self)@.to_send(
                oid,
                writes@.map_values(|w: Write| w@),
                insert_view(then),
            ),
    {
        self.task = Task::Sent { oid, then };
        assert(self@ =~= old(self)@.to_send(
            oid,
            writes@.map_values(|w: Write| w@),
            insert_view(then),
        ).0);
        Action::Send(writes)
    }

    fn send_one(
        &mut self,
        oid: u32,
        shard: &Shard,
        bind: Bind,
        track_missed: bool,
        then: Option<Insert>,
    ) -> (action: Action)
        ensures
            (final(self)@, action@) == old(self)@.to_send(
                oid,
                seq![old(self)@.write(shard@, bind@, track_missed)],
                insert_view(then),
            ),
    {
        let mut writes: Vec<Write> = Vec::new();
        writes.push(self.write_to(shard, bind, track_missed));
        assert(writes@.map_values(|w: Write| w@) =~= seq![
            self@.write(shard@, bind@, track_missed),
        ]);
        self.send(oid, writes, then)
    }

    fn moved(
        &mut self,
        oid: u32,
        new: TupleData,
        old_row: TupleData,
        complete: TupleData,
        new_shard: Shard,
        old_shard: Shard,
    ) -> (action: Action)
        ensures
            (final(self)@, action@) == old(self)@.on_moved(
                oid,
                new@,
                old_row@,
                complete@,
                new_shard@,
                old_shard@,
            ),
    {
        broadcast use vstd::std_specs::hash::group_hash_axioms;

        let (update_parse, delete_parse, insert_parse): (Parse, Parse, Parse) =
            match self.statements.get(&oid) {
            Some(statements) => (
                statements.update.parse().copy(),
                statements.delete.parse().copy(),
                statements.insert.parse().copy(),
            ),
            None => {
                return self.fail(Error::MissingKey);
            },
        };
        if !new_shard.same(&old_shard) {
            let delete: Write = self.write_to(
                &old_shard,
                old_row.to_bind(delete_parse.name.as_str()),
                true,
            );
            let insert: Write = self.write_to(
                &new_shard,
                complete.to_bind(insert_parse.name.as_str()),
                true,
            );
            let mut writes: Vec<Write> = Vec::new();
            writes.push(delete);
            writes.push(insert);
            assert(writes@.map_values(|w: Write| w@) =~= seq![delete@, insert@]);
            return self.send(oid, writes, None);
        }
        if !new.has_toasted() {
            let row: TupleData = Update::full_identity_bind_tuple(&old_row, &new);
            let bind: Bind = row.to_bind(update_parse.name.as_str());
            return self.send_one(oid, &new_shard, bind, true, None);
        }
        let (present, known, sql): (NonIdentityColumnsPresence, Option<Parse>, String) =
            match self.get_table(oid) {
            None => {
                return self.fail(Error::MissingKey);
            },
            Some(table) => match NonIdentityColumnsPresence::from_tuple(&new, table) {
                Err(e) => {
                    return self.fail(e);
                },
                Ok(present) => {
                    let known: Option<Parse> = self.shape_of(oid, &present);
                    let sql: String = table.update_full_identity_partial_set(&present);
                    (present, known, sql)
                },
            },
        };
        if present.no_non_identity_present() {
            self.mark_table_changed(oid);
            return self.finish(None);
        }
        let row: TupleData = Update::full_identity_bind_tuple(&old_row, &new.partial());
        match known {
            Some(parse) => {
                let bind: Bind = row.to_bind(parse.name.as_str());
                self.send_one(oid, &new_shard, bind, true, None)
            },
            None => self.prepare_shape(oid, present, sql, &row, Some(new_shard)),
        }
    }

    fn shape_prepared(
        &mut self,
        oid: u32,
        present: NonIdentityColumnsPresence,
        statement: Statement,
        bind: Bind,
        shard: Option<Shard>,
    ) -> (action: Action)
        ensures
            (final(self)@, action@) == old(self)@.on_shape(
                oid,
                present@,
                statement@,
                bind@,
                shard_view(shard),
            ),
    {
        broadcast use vstd::std_specs::hash::group_hash_axioms;

        let ghost before = self@;
        let parse: Parse = statement.parse().copy();
        match self.statements.remove(&oid) {
            None => {
                assert(self.statements@ =~= old(self).statements@);
                assert(self@ =~= before);
                self.fail(Error::MissingKey)
            },
            Some(mut statements) => {
                let ghost mask = present@;
                let ghost prior = statements@;
                statements.add_shape(present, statement);
                self.statements.insert(oid, statements);
                let ghost known = State {
                    statements: before.statements.insert(
                        oid,
                        StatementsView {
                            update_shapes: before.statements[oid].update_shapes.insert(
                                mask,
                                parse@,
                            ),
                            ..before.statements[oid]
                        },
                    ),
                    ..before
                };
                proof {
                    assert(prior == before.statements[oid]);
                    assert(self@.statements =~= known.statements);
                    assert(self@ =~= known);
                }
                match shard {
                    Some(shard) => self.send_one(oid, &shard, bind, true, None),
                    None => self.route(oid, bind, parse, true, None),
                }
            },
        }
    }

    fn record_relation(&mut self, oid: u32, key: Key, lsn: i64)
        ensures
            final(self)@ == old(self)@.with_relation(oid, key@, lsn),
    {
        broadcast use vstd::std_specs::hash::group_hash_axioms;

        let ghost before = self@;
        self.table_lsns.insert(oid, lsn);
        self.relations.insert(oid, key);
        assert(self@.relations =~= before.relations.insert(oid, key@));
        assert(self@ =~= before.with_relation(oid, key@, lsn));
    }

    fn new_statements(&mut self, key: &Key, null_column_idx: Option<usize>) -> (out: Option<
        (Statements, Vec<Parse>),
    >)
        requires
            old(self)@.tables.contains_key(key@),
        ensures
            ({
                let (statements, list, counter) = old(self)@.new_statements(
                    old(self)@.tables[key@],
                    null_column_idx,
                );
                &&& out matches Some(found)
                &&& found.0@ == statements
                &&& found.1@.map_values(|p: Parse| p@) == list
                &&& final(self)@ == State { counter, ..old(self)@ }
            }),
    {
        let ghost before = self@;
        let table: &Table = match self.tables.get(key) {
            Some(table) => table,
            None => {
                return None;
            },
        };
        let omni: bool = !table.is_sharded(&self.cluster.sharded_tables);
        let mut counter: usize = self.counter;
        let mut list: Vec<Parse> = Vec::new();
        let statements: Statements;
        if table.is_identity_full() {
            let insert: Statement = Statement::new(table.insert(), &mut counter);
            let update: Statement = Statement::new(table.update_full_identity(), &mut counter);
            let delete: Statement = Statement::new(table.delete_full_identity(), &mut counter);
            // A sharded row goes to one shard and needs no upsert.
            let upsert: Statement = if omni {
                Statement::new(table.upsert_full_identity(), &mut counter)
            } else {
                Statement::none()
            };
            list.push(insert.parse().copy());
            list.push(update.parse().copy());
            list.push(delete.parse().copy());
            if omni {
                list.push(upsert.parse().copy());
                assert(list@.map_values(|p: Parse| p@) =~= seq![
                    insert@,
                    update@,
                    delete@,
                    upsert@,
                ]);
            } else {
                assert(list@.map_values(|p: Parse| p@) =~= seq![insert@, update@, delete@]);
            }
            statements =
            Statements {
                insert,
                upsert,
                update,
                delete,
                omni,
                full_identity: true,
                update_shapes: AssocMap::new(),
                null_column_idx,
            };
        } else {
            let insert: Statement = Statement::new(table.insert(), &mut counter);
            let upsert: Statement = Statement::new(table.upsert(), &mut counter);
            let update: Statement = Statement::new(table.update(), &mut counter);
            let delete: Statement = Statement::new(table.delete(), &mut counter);
            list.push(insert.parse().copy());
            list.push(upsert.parse().copy());
            list.push(update.parse().copy());
            list.push(delete.parse().copy());
            assert(list@.map_values(|p: Parse| p@) =~= seq![insert@, upsert@, update@, delete@]);
            statements =
            Statements {
                insert,
                upsert,
                update,
                delete,
                omni,
                full_identity: false,
                update_shapes: AssocMap::new(),
                null_column_idx,
            };
        }
        assert(statements@.update_shapes =~= Map::<Seq<bool>, ParseView>::empty());
        self.counter = counter;
        assert(self@ =~= State { counter, ..before });
        Some((statements, list))
    }

    fn relation(&mut self, relation: Relation) -> (action: Action)
        ensures
            (final(self)@, action@) == old(self)@.on_relation(relation@),
    {
        broadcast use vstd::std_specs::hash::group_hash_axioms;

        let ghost before = self@;
        let oid: u32 = relation.oid.0;
        let key: Key = Key { schema: relation.namespace, name: relation.name };
        let ghost key_view = key@;
        let (dest, lsn, filter): (Key, i64, Result<Option<usize>, Error>) = match self.tables.get(
            &key,
        ) {
            None => {
                return self.finish(None);
            },
            Some(table) => {
                match table.valid() {
                    Err(e) => {
                        return self.fail(Error::from(e));
                    },
                    Ok(_) => {},
                }
                (
                    Key {
                        schema: table.table.destination_schema().to_owned(),
                        name: table.table.destination_name().to_owned(),
                    },
                    table.lsn.lsn,
                    null_filter(table),
                )
            },
        };
        match self.keys.get(&dest) {
            Some(known) => {
                // Partitions write to their parent: nothing is prepared again.
                match self.statements.get(known) {
                    Some(statements) => {
                        let copy: Statements = statements.copy();
                        self.statements.insert(oid, copy);
                        assert(self@.statements =~= before.statements.insert(oid, copy@));
                        self.record_relation(oid, key, lsn);
                        self.finish(None)
                    },
                    None => self.fail(Error::MissingKey),
                }
            },
            None => {
                let idx: Option<usize> = match filter {
                    Ok(idx) => idx,
                    Err(e) => {
                        return self.fail(e);
                    },
                };
                match self.new_statements(&key, idx) {
                    Some((statements, list)) => {
                        let ghost expected = before.on_relation(relation@);
                        self.task = Task::Prepare { oid, key, lsn, dest, statements };
                        assert(self@ =~= expected.0);
                        Action::Prepare(list)
                    },
                    None => self.fail(Error::MissingKey),
                }
            },
        }
    }

    fn relation_prepared(
        &mut self,
        oid: u32,
        key: Key,
        lsn: i64,
        dest: Key,
        statements: Statements,
    ) -> (action: Action)
        ensures
            (final(self)@, action@) == old(self)@.on_prepared(
                oid,
                key@,
                lsn,
                dest@,
                statements@,
            ),
    {
        broadcast use vstd::std_specs::hash::group_hash_axioms;

        let ghost before = self@;
        self.statements.insert(oid, statements);
        self.keys.insert(dest, oid);
        assert(self@.statements =~= before.statements.insert(oid, statements@));
        self.record_relation(oid, key, lsn);
        self.finish(None)
    }

    fn begin_transaction(&mut self, begin: Begin) -> (action: Action)
        ensures
            (final(self)@, action@) == old(self)@.on_begin(begin),
    {
        self.changed_tables.clear();
        self.set_working_lsn(begin.final_transaction_lsn);
        self.in_transaction = true;
        self.finish(None)
    }

    /// Moves the position in the stream, but not the one that is reported.
    fn set_working_lsn(&mut self, lsn: i64)
        ensures
            final(self)@ == (State {
                lsn_changed: lsn != old(self)@.lsn,
                lsn,
                ..old(self)@
            }),
    {
        self.lsn_changed = lsn != self.lsn;
        self.lsn = lsn;
    }

    /// Moves the position in the stream and the one that is reported: after a
    /// commit, and when replication starts.
    pub fn set_current_lsn(&mut self, lsn: i64) -> (changed: bool)
        ensures
            final(self)@ == (State {
                lsn_changed: lsn != old(self)@.lsn,
                lsn,
                committed_lsn: lsn,
                ..old(self)@
            }),
            changed == (lsn != old(self)@.lsn),
    {
        self.lsn_changed = lsn != self.lsn;
        self.lsn = lsn;
        self.committed_lsn = lsn;
        self.lsn_changed
    }

    fn committed(&mut self, end_lsn: i64, now: i64) -> (action: Action)
        ensures
            (final(self)@, action@) == old(self)@.on_synced(end_lsn, now),
    {
        broadcast use vstd::std_specs::hash::group_hash_axioms;

        let ghost before = self@;
        let lsn: i64 = self.lsn;
        let changed: Vec<u32> = self.take_changed();
        let ghost names = changed@;
        let ghost lsns = before.table_lsns;
        let mut i: usize = 0;
        while i < changed.len()
            invariant
                i <= changed.len(),
                names == changed@,
                self@ == (State {
                    changed_tables: Set::empty(),
                    table_lsns: self@.table_lsns,
                    ..before
                }),
                forall|oid: u32| #[trigger]
                    self@.table_lsns.contains_key(oid) <==> lsns.contains_key(oid) || names.take(
                        i as int,
                    ).contains(oid),
                forall|oid: u32|
                    self@.table_lsns.contains_key(oid) ==> #[trigger] self@.table_lsns[oid]
                        == if names.take(i as int).contains(oid) {
                        lsn
                    } else {
                        lsns[oid]
                    },
            decreases changed.len() - i,
        {
            let ghost held = self@.table_lsns;
            self.table_lsns.insert(changed[i], lsn);
            proof {
                assert(names.take(i + 1) =~= names.take(i as int).push(names[i as int]));
                assert forall|oid: u32| #[trigger]
                    self@.table_lsns.contains_key(oid) <==> lsns.contains_key(oid) || names.take(
                        i + 1,
                    ).contains(oid) by {
                    vstd::seq_lib::lemma_seq_contains_after_push(
                        names.take(i as int),
                        names[i as int],
                        oid,
                    );
                    assert(held.contains_key(oid) <==> lsns.contains_key(oid) || names.take(
                        i as int,
                    ).contains(oid));
                }
                assert forall|oid: u32|
                    self@.table_lsns.contains_key(oid) implies #[trigger] self@.table_lsns[oid]
                    == if names.take(i + 1).contains(oid) {
                    lsn
                } else {
                    lsns[oid]
                } by {
                    vstd::seq_lib::lemma_seq_contains_after_push(
                        names.take(i as int),
                        names[i as int],
                        oid,
                    );
                    if oid != names[i as int] {
                        assert(held.contains_key(oid));
                        assert(held[oid] == self@.table_lsns[oid]);
                    }
                }
            }
            i += 1;
        }
        proof {
            assert(names.take(names.len() as int) =~= names);
            let expected = Map::new(
                |oid: u32| lsns.contains_key(oid) || before.changed_tables.contains(oid),
                |oid: u32|
                    if before.changed_tables.contains(oid) {
                        lsn
                    } else {
                        lsns[oid]
                    },
            );
            assert forall|oid: u32| names.contains(oid) == before.changed_tables.contains(oid) by {}
            assert(self@.table_lsns =~= expected);
        }
        self.set_current_lsn(end_lsn);
        self.in_transaction = false;
        let status: StatusUpdate = self.status_update(now);
        proof {
            let expected = before.on_synced(end_lsn, now);
            assert(before.on_synced(end_lsn, now).0.table_lsns =~= self@.table_lsns);
        }
        self.finish(Some(status))
    }

    fn take_changed(&mut self) -> (out: Vec<u32>)
        ensures
            final(self)@ == (State { changed_tables: Set::empty(), ..old(self)@ }),
            forall|oid: u32| out@.contains(oid) <==> old(self)@.changed_tables.contains(oid),
    {
        broadcast use vstd::std_specs::hash::group_hash_axioms;

        let mut out: Vec<u32> = Vec::new();
        let ghost all = vstd::std_specs::hash::spec_hash_keys_iter(
            &self.changed_tables,
        ).remaining().unref();
        for oid in it: self.changed_tables.iter()
            invariant
                it.seq().unref() == all,
                out@ == all.take(it.index() as int),
        {
            out.push(*oid);
        }
        proof {
            assert(all.take(all.len() as int) =~= all);
            assert forall|oid: u32|
                out@.contains(oid) <==> old(self)@.changed_tables.contains(oid) by {
                assert(all.to_set().contains(oid) <==> all.contains(oid));
            }
        }
        self.changed_tables.clear();
        out
    }

    /// What is reported to the source: the position of the last transaction that
    /// every shard has committed.
    pub fn status_update(&self, now: i64) -> (out: StatusUpdate)
        ensures
            out == status_of(self@.committed_lsn, now),
    {
        StatusUpdate {
            last_applied: self.committed_lsn,
            last_flushed: self.committed_lsn,
            last_written: self.committed_lsn,
            system_clock: now,
            reply: 0,
        }
    }

    fn dispatch(&mut self, payload: Option<XLogPayload>) -> (action: Action)
        ensures
            (final(self)@, action@) == old(self)@.dispatch(payload_view(payload)),
    {
        match payload {
            None => {
                self.task = Task::Idle;
                Action::Done(None)
            },
            Some(XLogPayload::Insert(insert)) => self.insert(insert),
            Some(XLogPayload::Update(update)) => self.update(update),
            Some(XLogPayload::Delete(delete)) => self.delete(delete, None),
            Some(XLogPayload::Commit(commit)) => {
                self.task = Task::Drain { end_lsn: commit.end_lsn };
                Action::Drain
            },
            Some(XLogPayload::Relation(relation)) => self.relation(relation),
            Some(XLogPayload::Begin(begin)) => self.begin_transaction(begin),
            Some(XLogPayload::Other) => self.finish(None),
        }
    }

    fn take_payload(&mut self, payload: Option<XLogPayload>, size: usize) -> (action: Action)
        ensures
            (final(self)@, action@) == old(self)@.on_data(payload_view(payload), size),
    {
        self.size = size;
        if self.connections == 0 {
            self.task = Task::Connect { payload };
            Action::Connect
        } else {
            self.dispatch(payload)
        }
    }

    /// Takes a message of the stream and its size, and tells what is to be done. The
    /// statements that it makes the subscriber prepare take their numbers from the
    /// counter; subscribers that share it never share a name.
    pub fn handle_payload(
        &mut self,
        payload: Option<XLogPayload>,
        size: usize,
        counter: &mut usize,
    ) -> (action: Action)
        ensures
            (final(self)@, action@) == old(self)@.numbered(*old(counter)).on_data(
                payload_view(payload),
                size,
            ),
            *final(counter) == final(self)@.counter,
    {
        self.counter = *counter;
        assert(self@ =~= old(self)@.numbered(*old(counter)));
        let action: Action = self.take_payload(payload, size);
        *counter = self.counter;
        action
    }

    /// Takes a message of the source, and tells what is to be done. One that holds no
    /// piece of the log, or nothing that can be read, only makes the connections.
    pub fn handle(&mut self, data: &CopyData, counter: &mut usize) -> (action: Action)
        ensures
            ({
                let (payload, size) = payload_in(data.data@);
                (final(self)@, action@) == old(self)@.numbered(*old(counter)).on_data(payload, size)
            }),
            *final(counter) == final(self)@.counter,
    {
        match data.xlog_data() {
            Some(xlog) => match xlog.payload() {
                Some(payload) => {
                    let size: usize = xlog.len();
                    self.handle_payload(Some(payload), size, counter)
                },
                None => self.handle_payload(None, 0, counter),
            },
            None => self.handle_payload(None, 0, counter),
        }
    }

    /// Takes the outcome of what was to be done, and tells what is to be done next.
    pub fn resume(&mut self, event: Event, counter: &mut usize) -> (action: Action)
        requires
            old(self)@.awaits(event@),
        ensures
            (final(self)@, action@) == old(self)@.numbered(*old(counter)).on_event(event@),
            *final(counter) == final(self)@.counter,
    {
        self.counter = *counter;
        assert(self@ =~= old(self)@.numbered(*old(counter)));
        let action: Action = self.take_event(event);
        *counter = self.counter;
        action
    }

    fn take_event(&mut self, event: Event) -> (action: Action)
        requires
            old(self)@.awaits(event@),
        ensures
            (final(self)@, action@) == old(self)@.on_event(event@),
    {
        let ghost before = self@;
        let mut task: Task = Task::Idle;
        std::mem::swap(&mut task, &mut self.task);
        let ghost idle = self@;
        assert(idle == (State { task: TaskView::Idle, ..before }));
        assert(task@ == before.task);
        match event {
            Event::Failed(e) => {
                assert(idle.cleared() =~= before.cleared());
                self.fail(e)
            },
            Event::Connected(n) => match task {
                Task::Connect { payload } => {
                    self.connections = n;
                    self.task = Task::Idle;
                    proof {
                        lemma_dispatch_ignores_task(
                            State { connections: n, ..before },
                            self@,
                            payload_view(payload),
                        );
                    }
                    self.dispatch(payload)
                },
                _ => self.finish(None),
            },
            Event::Prepared => match task {
                Task::Prepare { oid, key, lsn, dest, statements } => self.relation_prepared(
                    oid,
                    key,
                    lsn,
                    dest,
                    statements,
                ),
                Task::Shape { oid, present, statement, bind, shard } => self.shape_prepared(
                    oid,
                    present,
                    statement,
                    bind,
                    shard,
                ),
                _ => self.finish(None),
            },
            Event::Routed(shards) => {
                let mut shards: Vec<Shard> = shards;
                let ghost routes = shards@.map_values(|s: Shard| s@);
                match task {
                    Task::Write { oid, bind, track_missed, then } => {
                        let shard: Shard = shards.remove(0);
                        assert(shard@ == routes[0]);
                        self.send_one(oid, &shard, bind, track_missed, then)
                    },
                    Task::Move { oid, new, old, complete } => {
                        let new_shard: Shard = shards.remove(0);
                        let old_shard: Shard = shards.remove(0);
                        assert(new_shard@ == routes[0]);
                        assert(old_shard@ == routes[1]);
                        self.moved(oid, new, old, complete, new_shard, old_shard)
                    },
                    _ => self.finish(None),
                }
            },
            Event::Sent => match task {
                Task::Sent { oid, then } => {
                    self.mark_table_changed(oid);
                    self.proceed(then)
                },
                _ => self.finish(None),
            },
            Event::Drained => match task {
                Task::Drain { end_lsn } => {
                    self.task = Task::Sync { end_lsn };
                    Action::Sync
                },
                _ => self.finish(None),
            },
            Event::Synced { now } => match task {
                Task::Sync { end_lsn } => self.committed(end_lsn, now),
                _ => self.finish(None),
            },
        }
    }

    /// Drops the connections and all that came over them, which rolls back
    /// whatever is open on the shards. The source sends it again.
    pub fn reconnect(&mut self)
        ensures
            final(self)@ == old(self)@.cleared(),
    {
        self.clear();
    }

    /// There is a connection to each of this many shards.
    pub fn connected(&mut self, connections: usize)
        ensures
            final(self)@ == (State { connections, ..old(self)@ }),
    {
        self.connections = connections;
    }

    /// Drops the connections, so that the next message makes new ones. To be
    /// used after connecting has failed.
    pub fn reset_connections(&mut self)
        ensures
            final(self)@ == (State { connections: 0, ..old(self)@ }),
    {
        self.connections = 0;
    }

    /// The number of bytes handled.
    pub fn bytes_sharded(&self) -> (out: usize)
        ensures
            out == self@.bytes_sharded,
    {
        self.bytes_sharded
    }

    /// The position in the stream.
    pub fn lsn(&self) -> (out: i64)
        ensures
            out == self@.lsn,
    {
        self.lsn
    }

    /// Whether the position moved when it was last set.
    pub fn lsn_changed(&self) -> (b: bool)
        ensures
            b == self@.lsn_changed,
    {
        self.lsn_changed
    }

    /// Whether a transaction is open.
    pub fn in_transaction(&self) -> (b: bool)
        ensures
            b == self@.in_transaction,
    {
        self.in_transaction
    }

    /// The position up to which a table has been applied.
    pub fn table_lsn(&self, oid: &Oid) -> (out: Option<i64>)
        ensures
            out == if self@.table_lsns.contains_key(oid.0) {
                Some(self@.table_lsns[oid.0])
            } else {
                None
            },
    {
        broadcast use vstd::std_specs::hash::group_hash_axioms;

        match self.table_lsns.get(&oid.0) {
            Some(lsn) => Some(*lsn),
            None => None,
        }
    }

    /// For each shard of the destination, the position of its primary among its
    /// pools: what to connect to.
    pub fn connect(&self) -> (out: Result<Vec<usize>, Error>)
        ensures
            ({
                let shards = self@.cluster.shards@;
                match out {
                    Ok(v) => v@.len() == shards.len() && forall|i: int|
                        0 <= i < shards.len() ==> first_primary(
                            *#[trigger] shards[i],
                            v@[i] as int,
                        ),
                    Err(e) => e is NoPrimary && exists|i: int|
                        0 <= i < shards.len() && !(#[trigger] shards[i]).has_primary(),
                }
            }),
    {
        let shards: &Vec<Arc<crate::cluster::Shard>> = &self.cluster.shards;
        let mut out: Vec<usize> = Vec::new();
        let mut i: usize = 0;
        while i < shards.len()
            invariant
                i <= shards.len(),
                shards@ == self@.cluster.shards@,
                out@.len() == i,
                forall|j: int| 0 <= j < i ==> first_primary(*#[trigger] shards@[j], out@[j] as int),
            decreases shards.len() - i,
        {
            match shards[i].primary() {
                Some(pool) => {
                    out.push(pool);
                },
                None => {
                    assert(!shards@[i as int].has_primary());
                    return Err(Error::NoPrimary);
                },
            }
            i += 1;
        }
        Ok(out)
    }

    /// The tables with replica identity FULL that are on every shard, each once. Rows
    /// of those are told apart by a unique index of the destination.
    pub fn omni_full_tables(&self) -> (out: Vec<PublicationTable>)
        ensures
            exists|keys: Seq<KeyView>| #[trigger]
                lists_omni_full(self@, keys) && publication_views(out@) == tables_at(self@, keys),
            keyed_by_name(self@) ==> names_of(publication_views(out@)).no_duplicates(),
    {
        let mut out: Vec<PublicationTable> = Vec::new();
        let ghost mut keys: Seq<KeyView> = Seq::empty();
        let n: usize = self.tables.slot_count();
        let mut i: usize = 0;
        assert(publication_views(out@) =~= tables_at(self@, keys));
        while i < n
            invariant
                i <= n,
                n == self.tables.slots(),
                keys.no_duplicates(),
                publication_views(out@) == tables_at(self@, keys),
                forall|k: KeyView| #[trigger]
                    keys.contains(k) ==> self@.tables.contains_key(k) && is_omni_full(
                        self@,
                        self@.tables[k],
                    ) && exists|j: int| 0 <= j < i && #[trigger] self.tables.slot_key(j) == k,
                forall|j: int|
                    0 <= j < i && is_omni_full(
                        self@,
                        self@.tables[#[trigger] self.tables.slot_key(j)],
                    ) ==> keys.contains(self.tables.slot_key(j)),
            decreases n - i,
        {
            let table: &Table = self.tables.slot_value(i);
            let ghost key = self.tables.slot_key(i as int);
            let ghost before = out@;
            let ghost old_keys = keys;
            let full: bool = table.is_identity_full() && !table.is_sharded(
                &self.cluster.sharded_tables,
            );
            assert(self@.tables.contains_key(key) && self@.tables[key] == table@);
            assert(full == is_omni_full(self@, self@.tables[key]));
            if self.tables.is_first_slot(i) {
                if full {
                    out.push(table.table.clone());
                    proof {
                        if keys.contains(key) {
                            let j = choose|j: int|
                                0 <= j < i && #[trigger] self.tables.slot_key(j) == key;
                            assert(self.tables.slot_key(j) != self.tables.slot_key(i as int));
                        }
                        keys = keys.push(key);
                        assert(publication_views(out@) =~= publication_views(before).push(
                            self@.tables[key].table,
                        ));
                        assert(tables_at(self@, keys) =~= tables_at(self@, old_keys).push(
                            self@.tables[key].table,
                        ));
                    }
                }
            }
            proof {
                assert forall|k: KeyView| #[trigger] keys.contains(k) implies old_keys.contains(k)
                    || (k == key && full) by {
                    vstd::seq_lib::lemma_seq_contains_after_push(old_keys, key, k);
                }
                assert forall|k: KeyView| #[trigger] old_keys.contains(k) implies keys.contains(
                    k,
                ) by {
                    vstd::seq_lib::lemma_seq_contains_after_push(old_keys, key, k);
                }
                if full {
                    if self.tables.first_slot(i as int) {
                        assert(keys[keys.len() - 1] == key);
                    } else {
                        let j = choose|j: int|
                            0 <= j < i && #[trigger] self.tables.slot_key(j) == key;
                        assert(old_keys.contains(self.tables.slot_key(j)));
                    }
                    assert(keys.contains(key));
                }
                assert forall|k: KeyView| #[trigger] keys.contains(k) implies exists|j: int|
                    0 <= j < i + 1 && #[trigger] self.tables.slot_key(j) == k by {
                    if old_keys.contains(k) {
                        let j = choose|j: int|
                            0 <= j < i && #[trigger] self.tables.slot_key(j) == k;
                        assert(self.tables.slot_key(j) == k);
                    } else {
                        assert(self.tables.slot_key(i as int) == k);
                    }
                }
            }
            i += 1;
        }
        proof {
            assert(lists_omni_full(self@, keys)) by {
                assert forall|k: KeyView| #[trigger]
                    self@.tables.contains_key(k) && is_omni_full(
                        self@,
                        self@.tables[k],
                    ) implies keys.contains(k) by {
                    assert(self.tables@.contains_key(k));
                    let j = choose|j: int|
                        0 <= j < self.tables.slots() && #[trigger] self.tables.slot_key(j) == k;
                    assert(keys.contains(self.tables.slot_key(j)));
                }
            }
            if keyed_by_name(self@) {
                assert forall|k: KeyView| keys.contains(k) implies self@.tables.contains_key(
                    k,
                ) by {}
                assert(names_of(publication_views(out@)) =~= keys) by {
                    assert forall|j: int| 0 <= j < keys.len() implies #[trigger] names_of(
                        publication_views(out@),
                    )[j] == keys[j] by {
                        assert(keys.contains(keys[j]));
                        assert(self@.tables.contains_key(keys[j]));
                    }
                }
            }
        }
        out
    }
}

/// Whether some keys are those of the tables with replica identity FULL that are on
/// every shard, each once.
pub open spec fn lists_omni_full(state: State, keys: Seq<KeyView>) -> bool {
    &&& keys.no_duplicates()
    &&& forall|k: KeyView| #[trigger]
        keys.contains(k) <==> state.tables.contains_key(k) && is_omni_full(state, state.tables[k])
}

/// The tables under some keys.
pub open spec fn tables_at(state: State, keys: Seq<KeyView>) -> Seq<PublicationTableView> {
    keys.map_values(|k: KeyView| state.tables[k].table)
}

/// The schema and name of each table.
pub open spec fn names_of(tables: Seq<PublicationTableView>) -> Seq<KeyView> {
    tables.map_values(|t: PublicationTableView| KeyView { schema: t.schema, name: t.name })
}

/// Whether every table is known under its own schema and name.
pub open spec fn keyed_by_name(state: State) -> bool {
    forall|k: KeyView| #[trigger]
        state.tables.contains_key(k) ==> state.tables[k].table.schema == k.schema
            && state.tables[k].table.name == k.name
}

/// Each table of a list.
pub open spec fn publication_views(v: Seq<PublicationTable>) -> Seq<PublicationTableView> {
    v.map_values(|t: PublicationTable| t@)
}

/// Whether a table has replica identity FULL and is on every shard.
pub open spec fn is_omni_full(state: State, table: TableView) -> bool {
    table.full_identity() && !table.sharded_by(state.cluster.sharded_tables)
}

/// The statements that control transactions on a shard's connection.
pub fn transaction_statements() -> (out: Vec<Parse>)
    ensures
        out@.map_values(|p: Parse| p@) == seq![
            ParseView { name: "__pgdog_repl_begin"@, query: "BEGIN"@ },
            ParseView { name: "__pgdog_repl_commit"@, query: "COMMIT"@ },
        ],
{
    let mut out: Vec<Parse> = Vec::new();
    out.push(Parse::named("__pgdog_repl_begin".to_owned(), "BEGIN".to_owned()));
    out.push(Parse::named("__pgdog_repl_commit".to_owned(), "COMMIT".to_owned()));
    assert(out@.map_values(|p: Parse| p@) =~= seq![
        ParseView { name: "__pgdog_repl_begin"@, query: "BEGIN"@ },
        ParseView { name: "__pgdog_repl_commit"@, query: "COMMIT"@ },
    ]);
    out
}

/// How many answers the statements that control transactions get: one each, and
/// one when the connection is ready.
pub const TRANSACTION_REPLIES: usize = 3;

/// An answer of a server.
#[derive(Debug)]
pub enum Reply {
    /// A message, by its code.
    Message(char),
    /// An error.
    Error(ErrorResponse),
}

/// Checks an answer to the statements that control transactions.
pub fn check_reply(reply: Reply) -> (out: Result<(), Error>)
    ensures
        match (reply, out) {
            (Reply::Message(c), Ok(_)) => c == '1' || c == 'C' || c == 'Z',
            (Reply::Message(c), Err(Error::OutOfSync(d))) => d == c && c != '1' && c != 'C' && c
                != 'Z',
            (Reply::Error(e), Err(Error::PgError(f))) => e == f,
            _ => false,
        },
{
    match reply {
        Reply::Message(c) => {
            if c == '1' || c == 'C' || c == 'Z' {
                Ok(())
            } else {
                Err(Error::OutOfSync(c))
            }
        },
        Reply::Error(e) => Err(Error::PgError(e)),
    }
}

/// The failures for tables without a unique index, shard by shard.
pub open spec fn missing_indexes(per_shard: Seq<Vec<String>>) -> Seq<Seq<char>> {
    per_shard.flat_map(|names: Vec<String>| texts(names@))
}

/// Checks that no shard lacks a unique index on a table with replica identity
/// FULL that is on every shard. Each table is named once.
pub fn validate_full_identity_omni_has_unique_index(per_shard: &Vec<Vec<String>>) -> (out: Result<
    (),
    Error,
>)
    ensures
        match out {
            Ok(_) => missing_indexes(per_shard@).len() == 0,
            Err(Error::TableValidation(found)) => missing_indexes(per_shard@).len() > 0 && exists|
                errors: Seq<TableValidationError>,
            | #[trigger]
                reports(found.0@, errors) && errors.len() == missing_indexes(per_shard@).len()
                    && forall|i: int|
                    0 <= i < errors.len() ==> (#[trigger] errors[i]).table_name@
                        == missing_indexes(per_shard@)[i] && errors[i].kind
                        == TableValidationErrorKind::FullIdentityOmniNoUniqueIndex,
            Err(_) => false,
        },
{
    let ghost f = |names: Vec<String>| texts(names@);
    let mut errors: Vec<TableValidationError> = Vec::new();
    let mut i: usize = 0;
    assert(per_shard@.take(0).flat_map(f) =~= Seq::<Seq<char>>::empty());
    while i < per_shard.len()
        invariant
            i <= per_shard.len(),
            f == (|names: Vec<String>| texts(names@)),
            errors@.len() == per_shard@.take(i as int).flat_map(f).len(),
            forall|k: int|
                0 <= k < errors@.len() ==> (#[trigger] errors@[k]).table_name@ == per_shard@.take(
                    i as int,
                ).flat_map(f)[k] && errors@[k].kind
                    == TableValidationErrorKind::FullIdentityOmniNoUniqueIndex,
        decreases per_shard.len() - i,
    {
        let names: &Vec<String> = &per_shard[i];
        let ghost before = per_shard@.take(i as int).flat_map(f);
        let mut j: usize = 0;
        while j < names.len()
            invariant
                j <= names.len(),
                errors@.len() == before.len() + j,
                forall|k: int|
                    0 <= k < errors@.len() ==> (#[trigger] errors@[k]).table_name@ == (before
                        + texts(names@))[k] && errors@[k].kind
                        == TableValidationErrorKind::FullIdentityOmniNoUniqueIndex,
            decreases names.len() - j,
        {
            errors.push(
                TableValidationError {
                    table_name: names[j].clone(),
                    kind: TableValidationErrorKind::FullIdentityOmniNoUniqueIndex,
                },
            );
            j += 1;
        }
        proof {
            per_shard@.lemma_flat_map_take_append(f, i as int);
        }
        i += 1;
    }
    assert(per_shard@.take(per_shard@.len() as int) =~= per_shard@);
    ensure_validation(errors)
}

} // verus!
