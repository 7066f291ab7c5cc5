//! Publishes the tables of a source cluster: which tables each shard copies and
//! streams, and from where.

use std::collections::HashMap;
use std::sync::Arc;
use vstd::prelude::*;
use vstd::std_specs::iter::IteratorSpec;

use super::error::{
    ensure_validation, reports, Error, TableValidationError, TableValidationErrorKind,
};
use super::hybrid::HybridNullTable;
use super::move_keys::KeyMoveScope;
use super::routing::OmniOwnership;
use super::stream::{initial, State, StreamSubscriber};
use super::table::{Key, KeyView, Lsn, PublicationTableColumn, Table, TableView};
use crate::assoc::AssocMap;
use crate::cluster::{share, Cluster, Role, Shard};
use crate::sharded_tables::ShardedTables;
use crate::text::str_eq;

verus! {

/// Each table of a list.
pub open spec fn table_views(v: Seq<Table>) -> Seq<TableView> {
    v.map_values(|t: Table| t@)
}

/// A table's schema and name.
pub open spec fn key_of(t: TableView) -> KeyView {
    KeyView { schema: t.table.schema, name: t.table.name }
}

/// The positions of some tables; the last one of a name counts.
pub open spec fn lsn_map(tables: Seq<TableView>) -> Map<KeyView, Lsn>
    decreases tables.len(),
{
    if tables.len() == 0 {
        Map::empty()
    } else {
        lsn_map(tables.drop_last()).insert(key_of(tables.last()), tables.last().lsn)
    }
}

/// A table at its known position, where there is one.
pub open spec fn at_known_lsn(t: TableView, known: Map<KeyView, Lsn>) -> TableView {
    if known.contains_key(key_of(t)) {
        TableView { lsn: known[key_of(t)], ..t }
    } else {
        t
    }
}

/// Tables at their known positions.
pub open spec fn merged(tables: Seq<TableView>, known: Map<KeyView, Lsn>) -> Seq<TableView> {
    tables.map_values(|t: TableView| at_known_lsn(t, known))
}

fn known_lsns(tables: &Vec<Table>) -> (out: AssocMap<Key, Lsn>)
    ensures
        out@ == lsn_map(table_views(tables@)),
{
    let mut out: AssocMap<Key, Lsn> = AssocMap::new();
    let ghost all = table_views(tables@);
    let mut i: usize = 0;
    assert(all.take(0).len() == 0);
    while i < tables.len()
        invariant
            i <= tables.len(),
            all == table_views(tables@),
            out@ == lsn_map(all.take(i as int)),
        decreases tables.len() - i,
    {
        assert(all.take(i + 1).drop_last() =~= all.take(i as int));
        assert(all.take(i + 1).last() == tables@[i as int]@);
        out.insert(tables[i].key(), tables[i].lsn);
        i += 1;
    }
    assert(all.take(all.len() as int) =~= all);
    out
}

/// Puts tables at the positions up to which they are known to have been copied.
pub fn merge_table_lsns(tables: Vec<Table>, existing_lsns: Option<&AssocMap<Key, Lsn>>) -> (out:
    Vec<Table>)
    ensures
        table_views(out@) == match existing_lsns {
            Some(known) => merged(table_views(tables@), known@),
            None => table_views(tables@),
        },
{
    let known: &AssocMap<Key, Lsn> = match existing_lsns {
        Some(known) => known,
        None => {
            return tables;
        },
    };
    let ghost all = table_views(tables@);
    let mut rest: Vec<Table> = tables;
    let mut out: Vec<Table> = Vec::new();
    let ghost mut n: int = 0;
    assert(tables@.skip(0) =~= tables@);
    assert(table_views(out@) =~= merged(all, known@).take(0));
    while rest.len() > 0
        invariant
            0 <= n <= tables@.len(),
            all == table_views(tables@),
            rest@ == tables@.skip(n),
            table_views(out@) == merged(all, known@).take(n),
        decreases rest.len(),
    {
        let ghost before = table_views(out@);
        let mut table: Table = rest.remove(0);
        let key: Key = table.key();
        match known.get(&key) {
            Some(lsn) => {
                table.lsn = *lsn;
            },
            None => {},
        }
        out.push(table);
        proof {
            assert(table@ =~= merged(all, known@)[n]);
            assert(table_views(out@) =~= before.push(table@));
            assert(merged(all, known@).take(n + 1) =~= merged(all, known@).take(n).push(
                merged(all, known@)[n],
            ));
            assert(rest@ =~= tables@.skip(n + 1));
            n = n + 1;
        }
    }
    assert(merged(all, known@).take(n) =~= merged(all, known@));
    out
}

/// The first entry that covers a table.
pub open spec fn hybrid_for(
    hybrid: Seq<HybridNullTable>,
    schema: Seq<char>,
    name: Seq<char>,
) -> Option<HybridNullTable>
    decreases hybrid.len(),
{
    if hybrid.len() == 0 {
        None
    } else if hybrid[0].covers(schema, name) {
        Some(hybrid[0])
    } else {
        hybrid_for(hybrid.drop_first(), schema, name)
    }
}

/// Whether a table has a column.
pub open spec fn has_column(columns: Seq<PublicationTableColumn>, name: Seq<char>) -> bool {
    exists|i: int| 0 <= i < columns.len() && (#[trigger] columns[i]).name@ == name
}

/// A table with the filter that its configuration gives it, or the column that
/// it lacks for that. Partitions go by their parent.
pub open spec fn annotated(hybrid: Seq<HybridNullTable>, t: TableView) -> Result<
    TableView,
    Seq<char>,
> {
    match hybrid_for(hybrid, t.table.destination_schema(), t.table.destination_name()) {
        None => Ok(t),
        Some(h) => if has_column(t.columns, h.column@) {
            Ok(TableView { null_filter_column: Some(h.column@), ..t })
        } else {
            Err(h.column@)
        },
    }
}

/// The tables of a list with their filters; or the first that lacks the column.
pub open spec fn all_annotated(hybrid: Seq<HybridNullTable>, tables: Seq<TableView>) -> Result<
    Seq<TableView>,
    (Seq<char>, Seq<char>),
>
    decreases tables.len(),
{
    if tables.len() == 0 {
        Ok(Seq::empty())
    } else {
        match all_annotated(hybrid, tables.drop_last()) {
            Err(e) => Err(e),
            Ok(before) => match annotated(hybrid, tables.last()) {
                Ok(t) => Ok(before.push(t)),
                Err(column) => Err((tables.last().table.text(), column)),
            },
        }
    }
}

fn find_hybrid<'a>(hybrid: &'a Vec<HybridNullTable>, schema: &str, name: &str) -> (out: Option<
    &'a HybridNullTable,
>)
    ensures
        match out {
            Some(h) => hybrid_for(hybrid@, schema@, name@) == Some(*h),
            None => hybrid_for(hybrid@, schema@, name@) is None,
        },
{
    let mut i: usize = 0;
    assert(hybrid@.skip(0) =~= hybrid@);
    while i < hybrid.len()
        invariant
            i <= hybrid.len(),
            hybrid_for(hybrid@, schema@, name@) == hybrid_for(
                hybrid@.skip(i as int),
                schema@,
                name@,
            ),
        decreases hybrid.len() - i,
    {
        assert(hybrid@.skip(i as int).drop_first() =~= hybrid@.skip(i + 1));
        if hybrid[i].matches(schema, name) {
            return Some(&hybrid[i]);
        }
        i += 1;
    }
    None
}

fn contains_column(columns: &Vec<PublicationTableColumn>, name: &str) -> (b: bool)
    ensures
        b == has_column(columns@, name@),
{
    let mut i: usize = 0;
    while i < columns.len()
        invariant
            i <= columns.len(),
            forall|j: int| 0 <= j < i ==> (#[trigger] columns@[j]).name@ != name@,
        decreases columns.len() - i,
    {
        if str_eq(columns[i].name.as_str(), name) {
            return true;
        }
        i += 1;
    }
    false
}

fn annotate(hybrid: &Vec<HybridNullTable>, table: Table) -> (out: Result<Table, Error>)
    ensures
        match (out, annotated(hybrid@, table@)) {
            (Ok(t), Ok(expected)) => t@ == expected,
            (Err(Error::BroadcastNullColumnMissing { table: name, column }), Err(expected)) => name@
                == table@.table.text() && column@ == expected,
            _ => false,
        },
{
    let mut table: Table = table;
    match find_hybrid(
        hybrid,
        table.table.destination_schema(),
        table.table.destination_name(),
    ) {
        None => Ok(table),
        Some(h) => {
            if !contains_column(&table.columns, h.column.as_str()) {
                return Err(
                    Error::BroadcastNullColumnMissing {
                        table: table.table.to_text(),
                        column: h.column.clone(),
                    },
                );
            }
            table.null_filter_column = Some(h.column.clone());
            Ok(table)
        },
    }
}

proof fn lemma_annotated_failure(
    hybrid: Seq<HybridNullTable>,
    tables: Seq<TableView>,
    n: int,
)
    requires
        0 <= n <= tables.len(),
        all_annotated(hybrid, tables.take(n)) is Err,
    ensures
        all_annotated(hybrid, tables) == all_annotated(hybrid, tables.take(n)),
    decreases tables.len(),
{
    if n == tables.len() {
        assert(tables.take(n) =~= tables);
    } else {
        assert(tables.drop_last().take(n) =~= tables.take(n));
        lemma_annotated_failure(hybrid, tables.drop_last(), n);
    }
}

/// The last place of a table in a list, or one before the first.
pub open spec fn place_of(list: Seq<TableView>, key: KeyView) -> int
    decreases list.len(),
{
    if list.len() == 0 {
        -1
    } else if key_of(list.last()) == key {
        list.len() - 1
    } else {
        place_of(list.drop_last(), key)
    }
}

/// Puts a table into a list, in place of one of the same name.
pub open spec fn put(list: Seq<TableView>, t: TableView) -> Seq<TableView> {
    let i = place_of(list, key_of(t));
    if i >= 0 {
        list.update(i, t)
    } else {
        list.push(t)
    }
}

proof fn lemma_place(list: Seq<TableView>, key: KeyView, i: int)
    requires
        -1 <= i < list.len(),
        i >= 0 ==> key_of(list[i]) == key,
        forall|j: int| i < j < list.len() ==> key_of(#[trigger] list[j]) != key,
    ensures
        place_of(list, key) == i,
    decreases list.len(),
{
    if list.len() > 0 && i < list.len() - 1 {
        assert(key_of(list[list.len() - 1]) != key);
        lemma_place(list.drop_last(), key, i);
    }
}

fn put_table(list: &mut Vec<Table>, table: Table)
    ensures
        table_views(final(list)@) == put(table_views(old(list)@), table@),
{
    let ghost before = table_views(list@);
    let key: Key = table.key();
    let mut n: usize = list.len();
    while n > 0
        invariant
            n <= list.len(),
            list@ == old(list)@,
            before == table_views(list@),
            key@ == key_of(table@),
            forall|j: int| n <= j < before.len() ==> key_of(#[trigger] before[j]) != key_of(table@),
        decreases n,
    {
        let other: Key = list[n - 1].key();
        assert(other@ == key_of(before[n - 1]));
        if crate::assoc::KeyEq::key_eq(&other, &key) {
            proof {
                lemma_place(before, key@, n - 1);
            }
            list.set(n - 1, table);
            assert(table_views(list@) =~= before.update(n - 1, table@));
            return ;
        }
        n -= 1;
    }
    proof {
        lemma_place(before, key@, -1);
    }
    list.push(table);
    assert(table_views(list@) =~= before.push(table@));
}

/// The tables of each shard, and those on every shard.
#[verifier::ext_equal]
pub struct Progress {
    pub tables: Map<usize, Seq<TableView>>,
    pub omni: Seq<TableView>,
}

/// The tables of a shard, none where it has no entry.
pub open spec fn tables_of(tables: Map<usize, Seq<TableView>>, shard: usize) -> Seq<TableView> {
    if tables.contains_key(shard) {
        tables[shard]
    } else {
        Seq::empty()
    }
}

/// Adds the tables of a shard: a sharded one to the shard, one on every shard to
/// those that are split between the shards.
pub open spec fn split(
    p: Progress,
    shard: usize,
    tables: Seq<TableView>,
    rules: ShardedTables,
) -> Progress
    decreases tables.len(),
{
    if tables.len() == 0 {
        p
    } else {
        let q = split(p, shard, tables.drop_last(), rules);
        let t = tables.last();
        if t.sharded_by(rules) {
            Progress { tables: q.tables.insert(shard, tables_of(q.tables, shard).push(t)), ..q }
        } else {
            Progress { omni: put(q.omni, t), ..q }
        }
    }
}

/// The tables of the first `n` shards, once they have been loaded; or the first
/// table that lacks the column of its filter. For a copy, the tables on every
/// shard are kept apart; for a stream, every shard has all of its tables, at the
/// positions up to which they have been copied.
pub open spec fn loaded(
    start: Map<usize, Seq<TableView>>,
    hybrid: Seq<HybridNullTable>,
    data_sync: bool,
    rules: ShardedTables,
    loads: Seq<Vec<Table>>,
    n: nat,
) -> (Progress, Option<(Seq<char>, Seq<char>)>)
    decreases n,
{
    if n == 0 {
        (Progress { tables: start, omni: Seq::empty() }, None)
    } else {
        let shard = (n - 1) as usize;
        let (p, e) = loaded(start, hybrid, data_sync, rules, loads, (n - 1) as nat);
        match e {
            Some(_) => (p, e),
            None => match all_annotated(hybrid, table_views(loads[n - 1]@)) {
                Err(e) => (p, Some(e)),
                Ok(tables) => if data_sync {
                    (split(p, shard, tables, rules), None)
                } else {
                    (
                        Progress {
                            tables: p.tables.insert(
                                shard,
                                if p.tables.contains_key(shard) {
                                    merged(tables, lsn_map(p.tables[shard]))
                                } else {
                                    tables
                                },
                            ),
                            ..p
                        },
                        None,
                    )
                },
            },
        }
    }
}

proof fn lemma_loaded_failure(
    start: Map<usize, Seq<TableView>>,
    hybrid: Seq<HybridNullTable>,
    data_sync: bool,
    rules: ShardedTables,
    loads: Seq<Vec<Table>>,
    n: nat,
    m: nat,
)
    requires
        n <= m,
        loaded(start, hybrid, data_sync, rules, loads, n).1 is Some,
    ensures
        loaded(start, hybrid, data_sync, rules, loads, m) == loaded(
            start,
            hybrid,
            data_sync,
            rules,
            loads,
            n,
        ),
    decreases m,
{
    if n < m {
        lemma_loaded_failure(start, hybrid, data_sync, rules, loads, n, (m - 1) as nat);
    }
}

/// The share of a shard in a list that is dealt out in turn.
pub open spec fn dealt(list: Seq<TableView>, shard: nat, shards: nat) -> Seq<TableView>
    decreases list.len(),
{
    if list.len() == 0 {
        Seq::empty()
    } else {
        let before = dealt(list.drop_last(), shard, shards);
        if (list.len() - 1) as nat % shards == shard {
            before.push(list.last())
        } else {
            before
        }
    }
}

/// The tables of each shard, once those on every shard have been dealt out. Every
/// shard has an entry.
pub open spec fn distributed(
    tables: Map<usize, Seq<TableView>>,
    omni: Seq<TableView>,
    shards: nat,
) -> Map<usize, Seq<TableView>> {
    Map::new(
        |k: usize| tables.contains_key(k) || k < shards,
        |k: usize|
            if k < shards {
                tables_of(tables, k) + dealt(omni, k as nat, shards)
            } else {
                tables[k]
            },
    )
}

/// Whether an error names a table and the column that it lacks.
pub open spec fn is_column_missing(error: Error, e: (Seq<char>, Seq<char>)) -> bool {
    error matches Error::BroadcastNullColumnMissing { table, column } && table@ == e.0 && column@
        == e.1
}

/// The publisher once the tables of all shards have been loaded; and the table that
/// lacks the column of its filter, where there is one.
pub open spec fn after_sync(
    p: PublisherView,
    data_sync: bool,
    rules: ShardedTables,
    loads: Seq<Vec<Table>>,
) -> (PublisherView, Option<(Seq<char>, Seq<char>)>) {
    let (progress, e) = loaded(p.tables, p.hybrid_tables, data_sync, rules, loads, loads.len());
    match e {
        None => (
            PublisherView {
                tables: distributed(progress.tables, progress.omni, loads.len()),
                ..p
            },
            None,
        ),
        Some(e) => (PublisherView { tables: progress.tables, ..p }, Some(e)),
    }
}

/// A table's name, and what keeps it from being replicated.
pub type TableFault = (Seq<char>, TableValidationErrorKind);

/// Whether a failure is that of one of some tables.
pub open spec fn fault_among(tables: Seq<TableView>, f: TableFault) -> bool {
    exists|i: int| 0 <= i < tables.len() && #[trigger] fault_at(tables, i) == Some(f)
}

/// The failure of a table in a list, if it has any.
pub open spec fn fault_at(tables: Seq<TableView>, i: int) -> Option<TableFault> {
    match tables[i].fault() {
        Some(kind) => Some((tables[i].table.text(), kind)),
        None => None,
    }
}

/// Whether a failure is that of a table of any shard.
pub open spec fn is_fault(tables: Map<usize, Seq<TableView>>, f: TableFault) -> bool {
    exists|shard: usize| #[trigger]
        tables.contains_key(shard) && fault_among(tables[shard], f)
}

/// Whether every table of every shard can be replicated.
pub open spec fn faultless(tables: Map<usize, Seq<TableView>>) -> bool {
    forall|f: TableFault| !(#[trigger] is_fault(tables, f))
}

/// The contents of some failures.
pub open spec fn fault_views(v: Seq<TableValidationError>) -> Seq<TableFault> {
    v.map_values(|e: TableValidationError| (e.table_name@, e.kind))
}

/// Whether an error reports the failures of the tables of every shard.
pub open spec fn is_validation_of(e: Error, tables: Map<usize, Seq<TableView>>) -> bool {
    e matches Error::TableValidation(found) && exists|errors: Seq<TableValidationError>| #[trigger]
        reports(found.0@, errors) && lists_faults(errors, tables)
}

/// Whether a list holds the failures of the tables of every shard, and no others.
pub open spec fn lists_faults(
    errors: Seq<TableValidationError>,
    tables: Map<usize, Seq<TableView>>,
) -> bool {
    forall|f: TableFault| #[trigger] fault_views(errors).contains(f) <==> is_fault(tables, f)
}

/// The tables of a publication, and how far they have got.
#[derive(Debug)]
pub struct Publisher {
    publication: String,
    /// The tables of each source shard.
    tables: HashMap<usize, Vec<Table>>,
    /// The position of the replication slot of each source shard.
    slots: HashMap<usize, i64>,
    replication_lag: HashMap<usize, i64>,
    /// When the last transaction was committed, in nanoseconds.
    last_transaction: Option<u128>,
    slot_name: String,
    hybrid_tables: Vec<HybridNullTable>,
    key_move: Option<Arc<KeyMoveScope>>,
}

/// The state of a [`Publisher`].
#[verifier::ext_equal]
pub struct PublisherView {
    pub publication: Seq<char>,
    pub tables: Map<usize, Seq<TableView>>,
    pub slots: Map<usize, i64>,
    pub replication_lag: Map<usize, i64>,
    pub last_transaction: Option<u128>,
    pub slot_name: Seq<char>,
    pub hybrid_tables: Seq<HybridNullTable>,
    pub key_move: Option<Arc<KeyMoveScope>>,
}

impl View for Publisher {
    type V = PublisherView;

    closed spec fn view(&self) -> PublisherView {
        PublisherView {
            publication: self.publication@,
            tables: self.tables@.map_values(|v: Vec<Table>| table_views(v@)),
            slots: self.slots@,
            replication_lag: self.replication_lag@,
            last_transaction: self.last_transaction,
            slot_name: self.slot_name@,
            hybrid_tables: self.hybrid_tables@,
            key_move: self.key_move,
        }
    }
}

impl Publisher {
    /// A publisher that knows no tables yet.
    pub fn new(publication: &str, slot_name: String) -> (out: Self)
        ensures
            out@ == (PublisherView {
                publication: publication@,
                tables: Map::empty(),
                slots: Map::empty(),
                replication_lag: Map::empty(),
                last_transaction: None,
                slot_name: slot_name@,
                hybrid_tables: Seq::empty(),
                key_move: None,
            }),
    {
        let out: Publisher = Publisher {
            publication: publication.to_owned(),
            tables: HashMap::new(),
            slots: HashMap::new(),
            replication_lag: HashMap::new(),
            last_transaction: None,
            slot_name,
            hybrid_tables: Vec::new(),
            key_move: None,
        };
        assert(out@.tables =~= Map::<usize, Seq<TableView>>::empty());
        assert(out@.hybrid_tables =~= Seq::<HybridNullTable>::empty());
        out
    }

    /// Restricts tables to their rows with a NULL key, in copies and streams.
    pub fn with_hybrid_tables(self, hybrid_tables: Vec<HybridNullTable>) -> (out: Self)
        ensures
            out@ == (PublisherView { hybrid_tables: hybrid_tables@, ..self@ }),
    {
        let mut out: Publisher = self;
        out.hybrid_tables = hybrid_tables;
        out
    }

    /// Moves some sharding keys: tables are copied in an order that foreign keys allow,
    /// and every stream is told which keys move. Which changes of a stream belong to
    /// those keys is for the one who reads it to tell.
    pub fn set_key_move(&mut self, scope: Arc<KeyMoveScope>)
        ensures
            final(self)@ == (PublisherView { key_move: Some(scope), ..old(self)@ }),
    {
        self.key_move = Some(scope);
    }

    /// Whether sharding keys are moved.
    pub fn moves_keys(&self) -> (b: bool)
        ensures
            b == self@.key_move is Some,
    {
        self.key_move.is_some()
    }

    /// The name of the replication slots.
    pub fn replication_slot(&self) -> (out: &String)
        ensures
            out@ == self@.slot_name,
    {
        &self.slot_name
    }

    /// The tables of a source shard.
    pub fn tables(&self, shard: usize) -> (out: Result<&Vec<Table>, Error>)
        ensures
            match out {
                Ok(v) => self@.tables.contains_key(shard) && table_views(v@) == self@.tables[shard],
                Err(Error::NoReplicationTables(n)) => n == shard && !self@.tables.contains_key(
                    shard,
                ),
                Err(_) => false,
            },
    {
        broadcast use vstd::std_specs::hash::group_hash_axioms;

        match self.tables.get(&shard) {
            Some(v) => Ok(v),
            None => Err(Error::NoReplicationTables(shard)),
        }
    }

    fn take_tables(&mut self, shard: usize) -> (out: Option<Vec<Table>>)
        ensures
            final(self)@ == (PublisherView {
                tables: old(self)@.tables.remove(shard),
                ..old(self)@
            }),
            match out {
                Some(v) => old(self)@.tables.contains_key(shard) && table_views(v@)
                    == old(self)@.tables[shard],
                None => !old(self)@.tables.contains_key(shard),
            },
    {
        broadcast use vstd::std_specs::hash::group_hash_axioms;

        let out: Option<Vec<Table>> = self.tables.remove(&shard);
        assert(self@.tables =~= old(self)@.tables.remove(shard));
        out
    }

    /// The tables of a shard after they have been copied, at the positions they
    /// were copied at.
    pub fn set_tables(&mut self, shard: usize, tables: Vec<Table>)
        ensures
            final(self)@ == (PublisherView {
                tables: old(self)@.tables.insert(shard, table_views(tables@)),
                ..old(self)@
            }),
    {
        broadcast use vstd::std_specs::hash::group_hash_axioms;

        self.tables.insert(shard, tables);
        assert(self@.tables =~= old(self)@.tables.insert(shard, table_views(tables@)));
    }

    fn push_table(&mut self, shard: usize, table: Table)
        ensures
            final(self)@ == (PublisherView {
                tables: old(self)@.tables.insert(
                    shard,
                    tables_of(old(self)@.tables, shard).push(table@),
                ),
                ..old(self)@
            }),
    {
        let mut tables: Vec<Table> = match self.take_tables(shard) {
            Some(v) => v,
            None => Vec::new(),
        };
        let ghost before = table_views(tables@);
        assert(before =~= tables_of(old(self)@.tables, shard));
        tables.push(table);
        assert(table_views(tables@) =~= before.push(table@));
        self.set_tables(shard, tables);
        assert(self@.tables =~= old(self)@.tables.insert(
            shard,
            tables_of(old(self)@.tables, shard).push(table@),
        ));
    }

    /// Restricts tables to their rows with a NULL key where they are configured
    /// so. Such a table must have the column.
    pub fn annotate_hybrid_tables(&self, tables: Vec<Table>) -> (out: Result<Vec<Table>, Error>)
        ensures
            match (out, all_annotated(self@.hybrid_tables, table_views(tables@))) {
                (Ok(v), Ok(expected)) => table_views(v@) == expected,
                (Err(Error::BroadcastNullColumnMissing { table, column }), Err(e)) => table@ == e.0
                    && column@ == e.1,
                _ => false,
            },
    {
        let ghost all = table_views(tables@);
        let mut rest: Vec<Table> = tables;
        let mut out: Vec<Table> = Vec::new();
        let ghost mut n: int = 0;
        assert(tables@.skip(0) =~= tables@);
        assert(table_views(out@) =~= Seq::<TableView>::empty());
        assert(all.take(0).len() == 0);
        while rest.len() > 0
            invariant
                0 <= n <= tables@.len(),
                all == table_views(tables@),
                rest@ == tables@.skip(n),
                all_annotated(self@.hybrid_tables, all.take(n)) == Ok::<
                    Seq<TableView>,
                    (Seq<char>, Seq<char>),
                >(table_views(out@)),
            decreases rest.len(),
        {
            let ghost before = table_views(out@);
            let table: Table = rest.remove(0);
            proof {
                assert(all.take(n + 1).drop_last() =~= all.take(n));
                assert(all.take(n + 1).last() == table@);
                assert(rest@ =~= tables@.skip(n + 1));
            }
            match annotate(&self.hybrid_tables, table) {
                Ok(t) => {
                    out.push(t);
                    assert(table_views(out@) =~= before.push(t@));
                },
                Err(e) => {
                    proof {
                        lemma_annotated_failure(self@.hybrid_tables, all, n + 1);
                    }
                    return Err(e);
                },
            }
            proof {
                n = n + 1;
            }
        }
        assert(all.take(n) =~= all);
        Ok(out)
    }

    fn split_tables(
        &mut self,
        shard: usize,
        tables: Vec<Table>,
        rules: &ShardedTables,
        omni: &mut Vec<Table>,
    )
        ensures
            ({
                let p = split(
                    Progress { tables: old(self)@.tables, omni: table_views(old(omni)@) },
                    shard,
                    table_views(tables@),
                    *rules,
                );
                &&& final(self)@ == PublisherView { tables: p.tables, ..old(self)@ }
                &&& table_views(final(omni)@) == p.omni
            }),
    {
        let ghost start = Progress { tables: self@.tables, omni: table_views(omni@) };
        let ghost all = table_views(tables@);
        let mut rest: Vec<Table> = tables;
        let ghost mut n: int = 0;
        assert(tables@.skip(0) =~= tables@);
        assert(all.take(0).len() == 0);
        while rest.len() > 0
            invariant
                0 <= n <= tables@.len(),
                all == table_views(tables@),
                rest@ == tables@.skip(n),
                self@ == (PublisherView {
                    tables: split(start, shard, all.take(n), *rules).tables,
                    ..old(self)@
                }),
                table_views(omni@) == split(start, shard, all.take(n), *rules).omni,
            decreases rest.len(),
        {
            let table: Table = rest.remove(0);
            proof {
                assert(all.take(n + 1).drop_last() =~= all.take(n));
                assert(all.take(n + 1).last() == table@);
                assert(rest@ =~= tables@.skip(n + 1));
                n = n + 1;
            }
            if table.is_sharded(rules) {
                self.push_table(shard, table);
            } else {
                put_table(omni, table);
            }
        }
        assert(all.take(n) =~= all);
    }

    /// Deals the tables on every shard out to the shards in turn. Every shard gets
    /// an entry, if an empty one.
    pub fn distribute_omnisharded_tables(&mut self, omnisharded: Vec<Table>, shards: usize)
        requires
            shards > 0 || omnisharded@.len() == 0,
        ensures
            final(self)@ == (PublisherView {
                tables: distributed(
                    old(self)@.tables,
                    table_views(omnisharded@),
                    shards as nat,
                ),
                ..old(self)@
            }),
    {
        broadcast use vstd::std_specs::hash::group_hash_axioms;

        let ghost before = self@;
        let mut number: usize = 0;
        while number < shards
            invariant
                number <= shards,
                self@ == (PublisherView {
                    tables: distributed(before.tables, Seq::empty(), number as nat),
                    ..before
                }),
            decreases shards - number,
        {
            let ghost held = self@.tables;
            let known: bool = self.tables.contains_key(&number);
            assert(known == held.contains_key(number));
            if !known {
                let none: Vec<Table> = Vec::new();
                assert(table_views(none@) =~= Seq::<TableView>::empty());
                self.set_tables(number, none);
            }
            proof {
                let next = distributed(before.tables, Seq::empty(), (number + 1) as nat);
                assert forall|k: usize| #[trigger] next.contains_key(k) implies self@.tables.contains_key(
                    k,
                ) && self@.tables[k] == next[k] by {
                    if k <= number {
                        assert(next[k] =~= tables_of(before.tables, k));
                    }
                    if k < number {
                        assert(held.contains_key(k));
                        assert(held[k] =~= tables_of(before.tables, k));
                    } else if k == number {
                        assert(held.contains_key(k) == before.tables.contains_key(k));
                        if held.contains_key(k) {
                            assert(held[k] == before.tables[k]);
                            assert(self@.tables == held);
                        } else {
                            assert(self@.tables == held.insert(k, Seq::empty()));
                        }
                    } else {
                        assert(held.contains_key(k));
                        assert(held[k] == before.tables[k]);
                    }
                }
                assert forall|k: usize| #[trigger] self@.tables.contains_key(k) implies next.contains_key(
                    k,
                ) by {
                    assert(held.contains_key(k) || k == number);
                }
                assert(self@.tables =~= next);
            }
            number += 1;
        }
        let ghost all = table_views(omnisharded@);
        let total: usize = omnisharded.len();
        let mut rest: Vec<Table> = omnisharded;
        let mut i: usize = 0;
        assert(omnisharded@.skip(0) =~= omnisharded@);
        assert(all.take(0) =~= Seq::<TableView>::empty());
        while rest.len() > 0
            invariant
                i <= omnisharded@.len(),
                all == table_views(omnisharded@),
                shards > 0 || omnisharded@.len() == 0,
                rest@ == omnisharded@.skip(i as int),
                self@ == (PublisherView {
                    tables: distributed(before.tables, all.take(i as int), shards as nat),
                    ..before
                }),
                i + rest@.len() == total,
                total == omnisharded@.len(),
            decreases rest.len(),
        {
            let table: Table = rest.remove(0);
            let shard: usize = i % shards;
            let ghost held = self@.tables;
            self.push_table(shard, table);
            proof {
                assert(rest@ =~= omnisharded@.skip(i + 1));
                assert(all.take(i + 1).drop_last() =~= all.take(i as int));
                assert(all.take(i + 1).last() == table@);
                let next = distributed(before.tables, all.take(i + 1), shards as nat);
                assert forall|k: usize| #[trigger] next.contains_key(k) implies self@.tables.contains_key(
                    k,
                ) && self@.tables[k] == next[k] by {
                    if k == shard {
                        assert(self@.tables[k] =~= next[k]);
                    } else if k < shards {
                        assert(held[k] == self@.tables[k]);
                        assert(self@.tables[k] =~= next[k]);
                    }
                }
                assert(self@.tables =~= next);
            }
            i += 1;
        }
        assert(all.take(i as int) =~= all);
    }

    /// Takes in the tables of the first source shards, one after another. Those on
    /// every shard are kept apart for a copy.
    fn take_loads(
        &mut self,
        data_sync: bool,
        loads: Vec<Vec<Table>>,
        rules: &ShardedTables,
        omni: &mut Vec<Table>,
    ) -> (out: Result<(), Error>)
        requires
            old(omni)@.len() == 0,
        ensures
            ({
                let (p, e) = loaded(
                    old(self)@.tables,
                    old(self)@.hybrid_tables,
                    data_sync,
                    *rules,
                    loads@,
                    loads@.len(),
                );
                &&& final(self)@ == (PublisherView { tables: p.tables, ..old(self)@ })
                &&& match (out, e) {
                    (Ok(_), None) => table_views(final(omni)@) == p.omni,
                    (Err(error), Some(e)) => is_column_missing(error, e),
                    _ => false,
                }
                &&& !data_sync && out is Ok ==> final(omni)@.len() == 0
            }),
    {
        let ghost before = self@;
        let ghost count = loads@.len();
        assert(loads.len() == count);
        let mut rest: Vec<Vec<Table>> = loads;
        let mut number: usize = 0;
        assert(loads@.skip(0) =~= loads@);
        assert(table_views(omni@) =~= Seq::<TableView>::empty());
        while rest.len() > 0
            invariant
                before == old(self)@,
                number + rest@.len() == count,
                count == loads@.len(),
                count <= usize::MAX,
                rest@ == loads@.skip(number as int),
                ({
                    let (p, e) = loaded(
                        before.tables,
                        before.hybrid_tables,
                        data_sync,
                        *rules,
                        loads@,
                        number as nat,
                    );
                    &&& e is None
                    &&& self@ == PublisherView { tables: p.tables, ..before }
                    &&& table_views(omni@) == p.omni
                }),
                !data_sync ==> omni@.len() == 0,
            decreases rest.len(),
        {
            let ghost held = self@;
            let tables: Vec<Table> = rest.remove(0);
            proof {
                assert(tables == loads@[number as int]);
                assert(rest@ =~= loads@.skip(number + 1));
            }
            let tables: Vec<Table> = match self.annotate_hybrid_tables(tables) {
                Ok(tables) => tables,
                Err(e) => {
                    proof {
                        let here = loaded(
                            before.tables,
                            before.hybrid_tables,
                            data_sync,
                            *rules,
                            loads@,
                            (number + 1) as nat,
                        );
                        assert(here.1 is Some);
                        lemma_loaded_failure(
                            before.tables,
                            before.hybrid_tables,
                            data_sync,
                            *rules,
                            loads@,
                            (number + 1) as nat,
                            count,
                        );
                    }
                    return Err(e);
                },
            };
            if data_sync {
                self.split_tables(number, tables, rules, omni);
            } else {
                let known: Option<Vec<Table>> = self.take_tables(number);
                let tables: Vec<Table> = match &known {
                    Some(v) => merge_table_lsns(tables, Some(&known_lsns(v))),
                    None => tables,
                };
                self.set_tables(number, tables);
                proof {
                    let p = loaded(
                        before.tables,
                        before.hybrid_tables,
                        data_sync,
                        *rules,
                        loads@,
                        (number + 1) as nat,
                    ).0;
                    assert(self@.tables =~= p.tables);
                }
            }
            number += 1;
        }
        Ok(())
    }

    /// Takes in the tables of the publication as each source shard has them. For a
    /// copy, the tables on every shard are split between the shards, so that no row
    /// is copied twice; for a stream, each shard has all of its tables, at the
    /// positions up to which they have been copied.
    pub fn sync_tables(
        &mut self,
        data_sync: bool,
        loads: Vec<Vec<Table>>,
        rules: &ShardedTables,
    ) -> (out: Result<(), Error>)
        ensures
            ({
                let (after, e) = after_sync(old(self)@, data_sync, *rules, loads@);
                &&& final(self)@ == after
                &&& match (out, e) {
                    (Ok(_), None) => true,
                    (Err(error), Some(e)) => is_column_missing(error, e),
                    _ => false,
                }
            }),
    {
        let shards: usize = loads.len();
        let mut omni: Vec<Table> = Vec::new();
        match self.take_loads(data_sync, loads, rules, &mut omni) {
            Ok(_) => {},
            Err(e) => {
                return Err(e);
            },
        }
        assert(omni@.len() == table_views(omni@).len());
        self.distribute_omnisharded_tables(omni, shards);
        Ok(())
    }

    /// The tables of a source shard could not be loaded. Those of the shards before it
    /// have been taken in; where one of them lacks the column of its filter, that is
    /// what went wrong first.
    pub fn sync_failed(
        &mut self,
        data_sync: bool,
        loads: Vec<Vec<Table>>,
        rules: &ShardedTables,
        error: Error,
    ) -> (out: Error)
        ensures
            ({
                let (p, e) = loaded(
                    old(self)@.tables,
                    old(self)@.hybrid_tables,
                    data_sync,
                    *rules,
                    loads@,
                    loads@.len(),
                );
                &&& final(self)@ == (PublisherView { tables: p.tables, ..old(self)@ })
                &&& match e {
                    Some(e) => is_column_missing(out, e),
                    None => out == error,
                }
            }),
    {
        let mut omni: Vec<Table> = Vec::new();
        match self.take_loads(data_sync, loads, rules, &mut omni) {
            Ok(_) => error,
            Err(e) => e,
        }
    }

    /// Checks that every table can be replicated, before what can be hours of
    /// copying.
    pub fn validate(&self) -> (out: Result<(), Error>)
        ensures
            match out {
                Ok(_) => faultless(self@.tables),
                Err(e) => !faultless(self@.tables) && is_validation_of(e, self@.tables),
            },
    {
        broadcast use vstd::std_specs::hash::group_hash_axioms;

        let ghost all = vstd::std_specs::hash::spec_values_iter(&self.tables).remaining().unref();
        let mut errors: Vec<TableValidationError> = Vec::new();
        for tables in it: self.tables.values()
            invariant
                it.seq().unref() == all,
                forall|f: TableFault| #[trigger]
                    fault_views(errors@).contains(f) <==> fault_in_first(all, it.index() as int, f),
        {
            let ghost i = it.index() as int;
            let ghost before = fault_views(errors@);
            assert(*tables == all[i]);
            push_faults(tables, &mut errors);
            proof {
                let views = table_views(tables@);
                assert forall|f: TableFault| #[trigger]
                    fault_views(errors@).contains(f) <==> fault_in_first(all, i + 1, f) by {
                    assert(before.contains(f) <==> fault_in_first(all, i, f));
                    if fault_in_first(all, i + 1, f) {
                        let j = choose|j: int|
                            0 <= j < i + 1 && #[trigger] fault_among(table_views(all[j]@), f);
                        if j < i {
                            assert(fault_in_first(all, i, f));
                        }
                    }
                    if fault_in_first(all, i, f) {
                        let j = choose|j: int|
                            0 <= j < i && #[trigger] fault_among(table_views(all[j]@), f);
                        assert(fault_among(table_views(all[j]@), f));
                    }
                    if fault_among(views, f) {
                        assert(fault_among(table_views(all[i]@), f));
                    }
                }
            }
        }
        proof {
            assert forall|f: TableFault| #[trigger]
                fault_views(errors@).contains(f) <==> is_fault(self@.tables, f) by {
                lemma_faults_of_values(self.tables@, all, f);
                assert(self@.tables =~= self.tables@.map_values(|v: Vec<Table>| table_views(v@)));
            }
            assert(fault_views(errors@).len() == errors@.len());
            if errors@.len() > 0 {
                let f = fault_views(errors@)[0];
                assert(fault_views(errors@).contains(f));
                assert(is_fault(self@.tables, f));
            } else {
                assert forall|f: TableFault| !(#[trigger] is_fault(self@.tables, f)) by {
                    assert(!fault_views(errors@).contains(f));
                }
            }
            assert(lists_faults(errors@, self@.tables));
        }
        ensure_validation(errors)
    }

    /// The publication.
    pub fn publication(&self) -> (out: &String)
        ensures
            out@ == self@.publication,
    {
        &self.publication
    }

    /// The slot of a shard has been created.
    pub fn slot_created(&mut self, shard: usize, lsn: i64)
        ensures
            final(self)@ == (PublisherView {
                slots: old(self)@.slots.insert(shard, lsn),
                ..old(self)@
            }),
    {
        broadcast use vstd::std_specs::hash::group_hash_axioms;

        self.slots.insert(shard, lsn);
        assert(self@.tables =~= old(self)@.tables);
    }

    /// Whether slots have to be created before replication can start.
    pub fn needs_slots(&self) -> (b: bool)
        ensures
            b == (self@.slots.dom().len() == 0),
    {
        self.slots.is_empty()
    }

    /// Starts the stream of a source shard, where its slot is: the shard must have
    /// tables and a slot, and gives the slot up.
    pub fn open_stream(&mut self, shard: usize, sources: usize, dest: &Arc<Cluster>) -> (out:
        Result<StreamSubscriber, Error>)
        ensures
            match out {
                Ok(stream) => {
                    &&& old(self)@.tables.contains_key(shard)
                    &&& old(self)@.slots.contains_key(shard)
                    &&& exists|tables: Seq<Table>| #[trigger]
                        table_views(tables) == old(self)@.tables[shard] && stream@ == (State {
                            lsn: old(self)@.slots[shard],
                            committed_lsn: old(self)@.slots[shard],
                            lsn_changed: old(self)@.slots[shard] != 0,
                            key_move: old(self)@.key_move,
                            ..initial(*dest, tables, OmniOwnership { source: shard, sources })
                        })
                    &&& final(self)@ == PublisherView {
                        slots: old(self)@.slots.remove(shard),
                        ..old(self)@
                    }
                },
                Err(Error::NoReplicationTables(n)) => n == shard
                    && !old(self)@.tables.contains_key(shard) && final(self)@ == old(self)@,
                Err(Error::NoReplicationSlot(n)) => n == shard && old(self)@.tables.contains_key(
                    shard,
                ) && !old(self)@.slots.contains_key(shard) && final(self)@ == old(self)@,
                Err(_) => false,
            },
    {
        broadcast use vstd::std_specs::hash::group_hash_axioms;

        let ghost mut found: Seq<Table> = Seq::empty();
        let mut stream: StreamSubscriber = match self.tables.get(&shard) {
            Some(tables) => {
                proof {
                    found = tables@;
                }
                StreamSubscriber::new(dest, tables, OmniOwnership::new(shard, sources))
            },
            None => {
                return Err(Error::NoReplicationTables(shard));
            },
        };
        match self.slots.remove(&shard) {
            Some(lsn) => {
                match &self.key_move {
                    Some(scope) => stream.set_key_move(share(scope)),
                    None => {},
                }
                stream.set_current_lsn(lsn);
                assert(table_views(found) == old(self)@.tables[shard]);
                Ok(stream)
            },
            None => {
                assert(self.slots@ =~= old(self).slots@);
                Err(Error::NoReplicationSlot(shard))
            },
        }
    }

    /// How far each source shard is ahead, as far as they have told.
    pub fn replication_lag(&self) -> (out: &HashMap<usize, i64>)
        ensures
            out@ == self@.replication_lag,
    {
        &self.replication_lag
    }

    /// A source shard is this far ahead.
    pub fn set_replication_lag(&mut self, shard: usize, lag: i64)
        ensures
            final(self)@ == (PublisherView {
                replication_lag: old(self)@.replication_lag.insert(shard, lag),
                ..old(self)@
            }),
    {
        broadcast use vstd::std_specs::hash::group_hash_axioms;

        self.replication_lag.insert(shard, lag);
        assert(self@.tables =~= old(self)@.tables);
    }

    /// How long ago the last transaction was committed, if any was.
    pub fn last_transaction(&self, now: u128) -> (out: Option<u128>)
        ensures
            out == match self@.last_transaction {
                Some(last) => Some(
                    if now >= last {
                        (now - last) as u128
                    } else {
                        0
                    },
                ),
                None => None,
            },
    {
        match self.last_transaction {
            Some(last) => if now >= last {
                Some(now - last)
            } else {
                Some(0)
            },
            None => None,
        }
    }

    /// The last transaction was committed at this time.
    pub fn set_last_transaction(&mut self, at: Option<u128>)
        ensures
            final(self)@ == (PublisherView { last_transaction: at, ..old(self)@ }),
    {
        self.last_transaction = at;
    }

    /// Gives up all slots, to be dropped. There are none left to drop a second
    /// time.
    pub fn cleanup(&mut self) -> (out: Vec<usize>)
        ensures
            final(self)@ == without_slots(old(self)@),
            out@.no_duplicates(),
            out@.to_set() == old(self)@.slots.dom(),
    {
        let out: Vec<usize> = slot_numbers(&self.slots);
        self.slots.clear();
        assert(self@.tables =~= old(self)@.tables);
        out
    }
}

/// The publisher once it has given up its slots.
pub open spec fn without_slots(p: PublisherView) -> PublisherView {
    PublisherView { slots: Map::empty(), ..p }
}

fn slot_numbers(slots: &HashMap<usize, i64>) -> (out: Vec<usize>)
    ensures
        out@.no_duplicates(),
        out@.to_set() == slots@.dom(),
{
    broadcast use vstd::std_specs::hash::group_hash_axioms;

    let ghost all = vstd::std_specs::hash::spec_keys_iter(slots).remaining().unref();
    let mut out: Vec<usize> = Vec::new();
    assert(out@ =~= all.take(0));
    for number in it: slots.keys()
        invariant
            it.seq().unref() == all,
            out@ == all.take(it.index() as int),
    {
        let ghost i = it.index();
        assert(*number == all[i as int]);
        out.push(*number);
        assert(out@ =~= all.take(i + 1));
    }
    assert(out@ =~= all);
    out
}

/// Whether a failure is that of a table of the first lists.
spec fn fault_in_first(all: Seq<Vec<Table>>, n: int, f: TableFault) -> bool {
    exists|j: int| 0 <= j < n && #[trigger] fault_among(table_views(all[j]@), f)
}

proof fn lemma_faults_of_values(
    tables: Map<usize, Vec<Table>>,
    all: Seq<Vec<Table>>,
    f: TableFault,
)
    requires
        all.to_set() == tables.values(),
    ensures
        fault_in_first(all, all.len() as int, f) <==> is_fault(
            tables.map_values(|v: Vec<Table>| table_views(v@)),
            f,
        ),
{
    let views = tables.map_values(|v: Vec<Table>| table_views(v@));
    if fault_in_first(all, all.len() as int, f) {
        let j = choose|j: int|
            0 <= j < all.len() && #[trigger] fault_among(table_views(all[j]@), f);
        assert(all.to_set().contains(all[j]));
        assert(tables.values().contains(all[j]));
        let shard = choose|shard: usize| #[trigger]
            tables.contains_key(shard) && tables[shard] == all[j];
        assert(views.contains_key(shard));
    }
    if is_fault(views, f) {
        let shard = choose|shard: usize| #[trigger]
            views.contains_key(shard) && fault_among(views[shard], f);
        assert(tables.contains_key(shard));
        assert(tables.values().contains(tables[shard]));
        assert(all.to_set().contains(tables[shard]));
        let j = all.index_of(tables[shard]);
        assert(fault_among(table_views(all[j]@), f));
    }
}

/// Adds the failures of some tables.
fn push_faults(tables: &Vec<Table>, errors: &mut Vec<TableValidationError>)
    ensures
        forall|f: TableFault| #[trigger]
            fault_views(final(errors)@).contains(f) <==> fault_views(old(errors)@).contains(f)
                || fault_among(table_views(tables@), f),
{
    let ghost start = fault_views(errors@);
    let ghost all = table_views(tables@);
    let mut i: usize = 0;
    assert forall|f: TableFault| !(#[trigger] fault_among(all.take(0), f)) by {}
    while i < tables.len()
        invariant
            i <= tables.len(),
            all == table_views(tables@),
            forall|f: TableFault| #[trigger]
                fault_views(errors@).contains(f) <==> start.contains(f) || fault_among(
                    all.take(i as int),
                    f,
                ),
        decreases tables.len() - i,
    {
        let ghost before = fault_views(errors@);
        let ghost old_errors = errors@;
        assert(all[i as int] == tables@[i as int]@);
        match tables[i].valid() {
            Ok(_) => {},
            Err(e) => {
                errors.push(e);
                assert(fault_views(errors@) =~= before.push((e.table_name@, e.kind)));
            },
        }
        proof {
            let n = i as int;
            let here = fault_at(all, n);
            assert forall|f: TableFault| #[trigger]
                fault_views(errors@).contains(f) <==> start.contains(f) || fault_among(
                    all.take(n + 1),
                    f,
                ) by {
                assert(before.contains(f) <==> start.contains(f) || fault_among(all.take(n), f));
                assert(fault_among(all.take(n + 1), f) <==> fault_among(all.take(n), f) || here
                    == Some(f)) by {
                    if fault_among(all.take(n + 1), f) {
                        let j = choose|j: int|
                            0 <= j < n + 1 && #[trigger] fault_at(all.take(n + 1), j) == Some(f);
                        if j < n {
                            assert(fault_at(all.take(n), j) == Some(f));
                        }
                    }
                    if fault_among(all.take(n), f) {
                        let j = choose|j: int|
                            0 <= j < n && #[trigger] fault_at(all.take(n), j) == Some(f);
                        assert(fault_at(all.take(n + 1), j) == Some(f));
                    }
                    if here == Some(f) {
                        assert(fault_at(all.take(n + 1), n) == Some(f));
                    }
                }
                if here is Some {
                    vstd::seq_lib::lemma_seq_contains_after_push(before, here->0, f);
                }
            }
        }
        i += 1;
    }
    assert(all.take(all.len() as int) =~= all);
}

/// The first failure of a list, if there is any.
pub fn first_error(results: Vec<Result<(), Error>>) -> (out: Result<(), Error>)
    ensures
        match out {
            Ok(_) => forall|i: int| 0 <= i < results@.len() ==> (#[trigger] results@[i]) is Ok,
            Err(e) => exists|i: int|
                0 <= i < results@.len() && #[trigger] results@[i] == Err::<(), Error>(e)
                    && forall|j: int| 0 <= j < i ==> (#[trigger] results@[j]) is Ok,
        },
{
    let mut rest: Vec<Result<(), Error>> = results;
    let ghost mut n: int = 0;
    assert(results@.skip(0) =~= results@);
    while rest.len() > 0
        invariant
            0 <= n <= results@.len(),
            rest@ == results@.skip(n),
            forall|j: int| 0 <= j < n ==> (#[trigger] results@[j]) is Ok,
        decreases rest.len(),
    {
        let result: Result<(), Error> = rest.remove(0);
        assert(result == results@[n]);
        match result {
            Ok(_) => {},
            Err(e) => {
                return Err(e);
            },
        }
        proof {
            assert(rest@ =~= results@.skip(n + 1));
            n = n + 1;
        }
    }
    Ok(())
}

/// Whether a shard has a replica.
pub open spec fn has_replicas(shard: Shard) -> bool {
    exists|i: int| 0 <= i < shard.pools@.len() && (#[trigger] shard.pools@[i]).role == Role::Replica
}

/// Whether a shard has a database for copying alone.
pub open spec fn has_resharding_only(shard: Shard) -> bool {
    exists|i: int| 0 <= i < shard.pools@.len() && (#[trigger] shard.pools@[i]).resharding_only
}

/// Whether tables are copied from a database: one that is there for that, where
/// there is any; otherwise a replica, or the primary where there is none.
pub open spec fn copies_from(shard: Shard, i: int) -> bool {
    if has_resharding_only(shard) {
        shard.pools@[i].resharding_only
    } else {
        match shard.pools@[i].role {
            Role::Replica => true,
            Role::Primary => !has_replicas(shard),
            Role::Auto => false,
        }
    }
}

/// The databases that tables are copied from, below a number.
pub open spec fn copy_sources(shard: Shard, n: nat) -> Seq<usize>
    decreases n,
{
    if n == 0 {
        Seq::empty()
    } else {
        let before = copy_sources(shard, (n - 1) as nat);
        if copies_from(shard, n - 1) {
            before.push((n - 1) as usize)
        } else {
            before
        }
    }
}

/// The databases of a shard that tables are copied from.
pub fn copy_pools(shard: &Shard) -> (out: Vec<usize>)
    ensures
        out@ == copy_sources(*shard, shard.pools@.len()),
{
    let mut replicas: bool = false;
    let mut dedicated: bool = false;
    let mut i: usize = 0;
    while i < shard.pools.len()
        invariant
            i <= shard.pools.len(),
            replicas == exists|j: int|
                0 <= j < i && (#[trigger] shard.pools@[j]).role == Role::Replica,
            dedicated == exists|j: int| 0 <= j < i && (#[trigger] shard.pools@[j]).resharding_only,
        decreases shard.pools.len() - i,
    {
        if shard.pools[i].role == Role::Replica {
            replicas = true;
        }
        if shard.pools[i].resharding_only {
            dedicated = true;
        }
        i += 1;
    }
    let mut out: Vec<usize> = Vec::new();
    let mut k: usize = 0;
    assert(out@ =~= copy_sources(*shard, 0));
    while k < shard.pools.len()
        invariant
            k <= shard.pools.len(),
            replicas == has_replicas(*shard),
            dedicated == has_resharding_only(*shard),
            out@ == copy_sources(*shard, k as nat),
        decreases shard.pools.len() - k,
    {
        let chosen: bool = if dedicated {
            shard.pools[k].resharding_only
        } else {
            match shard.pools[k].role {
                Role::Replica => true,
                Role::Primary => !replicas,
                Role::Auto => false,
            }
        };
        if chosen {
            out.push(k);
        }
        k += 1;
    }
    out
}

} // verus!
