//! What is decided before anything is copied: which tables, keys and shards take part,
//! how far behind the destination is, and what stands in the way.

use std::sync::Arc;
use vstd::prelude::*;

use super::add_shard::{destination_is_empty, placement_stable, provisioning_lock, stable};
use super::copy::CopyProgress;
use super::copy_statement::is_null;
use super::data_sync::shard_copies;
use super::dependencies::{acyclic, dependency_order, parents_first, ranked, refers};
use super::error::{BackendError, Error};
use super::missed_rows::{total, MissedRows};
use super::move_keys::{
    all_digits, bigint, by_lookup, canonical_text, grouped, integer, is_digit, is_hex,
    is_hyphenated, key_condition, number, placement_by_lookup, KeyMoveScope, MoveTable,
};
use super::orchestrator::Orchestrator;
use super::parallel_sync::{
    answered_row, destination_has_rows, may_start, moved_column, shards_with_rows,
    ParallelSyncManager,
};
use super::publication::{publication_created, validate_tables, Created};
use super::publisher::{first_error, key_of, table_views, Publisher};
use super::schema_sync::{phase, SchemaSync, SchemaSyncPhase};
use super::stream::Reply;
use super::table::{Key, KeyView, Table, TableView};
use crate::cluster::{Cluster, Databases, Shard};
use crate::config::{CopyFormat, DataType};
use crate::schema::dump::PgDump;
use crate::schema::pg_dump::SyncState;
use crate::sharded_tables::LookupResult;
use crate::text::{lower, texts};

verus! {

/// How far behind replication is, is what the shard that is furthest behind says; it
/// is not known until every shard has said.
pub proof fn law_the_slowest_shard_counts(o: Orchestrator, out: Option<u64>)
    requires
        call_ensures(Orchestrator::replication_lag, (&o,), out),
        o@.publisher.replication_lag.dom().finite(),
    ensures
        ({
            let lag = o@.publisher.replication_lag;
            let all = lag.dom().len() == o@.source.shards@.len();
            &&& !all ==> out is None
            &&& all && o@.source.shards@.len() > 0 ==> out is Some
            &&& out matches Some(l) ==> exists|slowest: usize|
                #![trigger lag[slowest]]
                lag.contains_key(slowest) && l == lag[slowest] as u64 && forall|shard: usize|
                    lag.contains_key(shard) ==> #[trigger] lag[shard] <= lag[slowest]
        }),
{
    let lag = o@.publisher.replication_lag;
    if let Some(l) = out {
        let m = choose|m: i64| #[trigger]
            super::orchestrator::largest(lag.values(), m) && l == m as u64;
        assert(lag.values().contains(m));
        let slowest = choose|k: usize| #[trigger] lag.contains_key(k) && lag[k] == m;
        assert forall|shard: usize| lag.contains_key(shard) implies #[trigger] lag[shard]
            <= lag[slowest] by {
            assert(lag.values().contains(lag[shard]));
        }
        assert(lag.contains_key(slowest));
    } else if lag.dom().len() == o@.source.shards@.len() && o@.source.shards@.len() > 0 {
        let shard = lag.dom().choose();
        assert(lag.contains_key(shard));
        assert(lag.values().contains(lag[shard]));
    }
}

/// Looking both ends up again changes what they are connected to and nothing else: the
/// publication, the slot, and what the publisher knows stay, and so does a destination
/// of the caller's own.
pub proof fn law_refreshing_keeps_the_rest(
    o: &mut Orchestrator,
    databases: Databases,
    out: Result<(), Error>,
)
    requires
        call_ensures(Orchestrator::refresh, (o, &databases), out),
    ensures
        final(o)@.publication == old(o)@.publication,
        final(o)@.replication_slot == old(o)@.replication_slot,
        final(o)@.publisher == old(o)@.publisher,
        final(o)@.source_shard == old(o)@.source_shard,
        final(o)@.schema_only == old(o)@.schema_only,
        final(o)@.fixed_destination == old(o)@.fixed_destination,
        old(o)@.fixed_destination ==> final(o)@.destination == old(o)@.destination,
        out is Ok && !old(o)@.fixed_destination ==> databases@.contains_key(
            old(o)@.destination.database@,
        ) && final(o)@.destination == databases@[old(o)@.destination.database@],
        out is Ok ==> databases@.contains_key(old(o)@.source.database@),
        out is Ok && old(o)@.source_shard is None ==> final(o)@.source
            == databases@[old(o)@.source.database@],
        out is Ok ==> (old(o)@.source_shard matches Some(shard) ==> final(o)@.source.shards@.len()
            == 1 && shard < databases@[old(o)@.source.database@].shards@.len() && final(
            o)@.source.shards@[0] == databases@[old(o)@.source.database@].shards@[shard as int]),
{
}

/// A new publisher knows nothing yet, and works for the same publication and slot.
pub proof fn law_fresh_publishers_know_nothing(o: &mut Orchestrator, out: ())
    requires
        call_ensures(Orchestrator::refresh_publisher, (o,), out),
    ensures
        final(o)@.publisher.publication == old(o)@.publication,
        final(o)@.publisher.slot_name == old(o)@.replication_slot,
        final(o)@.publisher.tables.dom() == Set::<usize>::empty(),
        final(o)@.publisher.slots.dom() == Set::<usize>::empty(),
        final(o)@.publisher.replication_lag.dom() == Set::<usize>::empty(),
        final(o)@.publisher.last_transaction is None,
        final(o)@.source == old(o)@.source,
        final(o)@.destination == old(o)@.destination,
{
}

/// A publication of the right name serves where it has the tables asked for, each as
/// often, whatever their order.
pub proof fn law_publications_match_by_their_tables(
    name: &'static str,
    existing: Vec<String>,
    requested: Vec<String>,
    out: Result<(), Error>,
    table: Seq<char>,
)
    requires
        call_ensures(validate_tables, (name, &existing, &requested), out),
    ensures
        out is Ok ==> (texts(existing@).contains(table) <==> texts(requested@).contains(table)),
        out is Ok ==> existing@.len() == requested@.len(),
        existing@ == requested@ ==> out is Ok,
{
    let a = texts(existing@);
    let b = texts(requested@);
    broadcast use vstd::seq_lib::group_to_multiset_ensures;

    if out is Ok {
        assert(a.to_multiset().count(table) == b.to_multiset().count(table));
        assert(a.to_multiset().len() == b.to_multiset().len());
    }
}

/// A publication that is there already is no failure; any other error is.
pub proof fn law_publications_may_exist(
    result: Result<(), BackendError>,
    out: Result<Created, Error>,
)
    requires
        call_ensures(publication_created, (result,), out),
    ensures
        result is Ok ==> out == Ok::<Created, Error>(Created::New),
        result matches Err(e) ==> {
            let there = e is ExecutionError && e->ExecutionError_0.code@ == "42710"@;
            out == (if there {
                Ok(Created::Exists)
            } else {
                Err::<Created, Error>(Error::Backend(e))
            })
        },
{
}

/// A shard can be added where no row would have to move: every rule places rows by a
/// lookup of the shard or by an explicit mapping, and none by centroids.
pub proof fn law_shards_are_added_where_rows_stay(cluster: Cluster, out: Result<(), Error>)
    requires
        call_ensures(placement_stable, (&cluster,), out),
    ensures
        out is Ok <==> forall|i: int|
            0 <= i < cluster.sharded_tables.rules().len() ==> {
                let rule = #[trigger] cluster.sharded_tables.rules()[i];
                (rule.lookup_result == LookupResult::Shard || rule.mapping is Some)
                    && rule.centroids == 0
            },
        out matches Err(e) ==> e is PlacementNotStable,
{
    let rules = cluster.sharded_tables.rules();
    if out is Err {
        let i = choose|i: int| 0 <= i < rules.len() && !stable(#[trigger] rules[i]);
        assert(!stable(rules[i]));
        assert(!((rules[i].lookup_result == LookupResult::Shard || rules[i].mapping is Some)
            && rules[i].centroids == 0));
    } else {
        let args = (&cluster,);
        assert(args.0.sharded_tables.rules() == rules);
        assert forall|i: int| 0 <= i < rules.len() implies stable(#[trigger] rules[i]) by {
            assert(stable(cluster.sharded_tables.rules()[i]));
        }
    }
}

/// Single keys can be moved where every rule places rows by a lookup of the shard.
pub proof fn law_keys_move_where_lookups_place_them(cluster: Cluster, out: Result<(), Error>)
    requires
        call_ensures(placement_by_lookup, (&cluster,), out),
    ensures
        out is Ok <==> forall|i: int|
            0 <= i < cluster.sharded_tables.rules().len() ==> (
            #[trigger] cluster.sharded_tables.rules()[i]).lookup_result == LookupResult::Shard,
        out matches Err(e) ==> e is PlacementNotByLookup,
{
    let rules = cluster.sharded_tables.rules();
    if out is Err {
        let i = choose|i: int| 0 <= i < rules.len() && !by_lookup(#[trigger] rules[i]);
        assert(!by_lookup(rules[i]));
    } else {
        let args = (&cluster,);
        assert(args.0.sharded_tables.rules() == rules);
        assert(forall|i: int| 0 <= i < rules.len() ==> by_lookup(#[trigger] rules[i]));
    }
}

/// A new shard is taken where it has no table and nobody else is at it.
pub proof fn law_new_shards_are_empty_and_free(
    tables: Vec<String>,
    rows: Vec<String>,
    empty: Result<(), Error>,
    free: Result<(), Error>,
)
    requires
        call_ensures(destination_is_empty, (&tables,), empty),
        call_ensures(provisioning_lock, (&rows,), free),
    ensures
        empty is Ok <==> tables@.len() == 0,
        empty matches Err(e) ==> e == Error::DestinationNotEmpty(tables@.len() as usize),
        free is Ok <==> rows@.len() > 0 && rows@[0]@ == "t"@,
        free matches Err(e) ==> e is ProvisioningLocked,
{
}

/// A row that was missed counts once, as what it was.
pub proof fn law_missed_rows_count_once(m: &mut MissedRows, tag: &'static str, out: ())
    requires
        call_ensures(MissedRows::record, (m, tag), out),
    ensures
        ({
            let a = old(m)@;
            let b = final(m)@;
            &&& b.insert == a.insert + (if tag@ == "INSERT"@ {
                1int
            } else {
                0
            })
            &&& b.update == a.update + (if tag@ == "UPDATE"@ {
                1int
            } else {
                0
            })
            &&& b.delete == a.delete + (if tag@ == "DELETE"@ {
                1int
            } else {
                0
            })
        }),
{
    reveal_strlit("INSERT");
    reveal_strlit("UPDATE");
    reveal_strlit("DELETE");
    assert("INSERT"@[0] == 'I');
    assert("UPDATE"@[0] == 'U');
    assert("DELETE"@[0] == 'D');
}

/// The rows missed by some streams are those missed by each, added up.
pub proof fn law_missed_rows_add_up(a: Seq<MissedRows>, b: Seq<MissedRows>, one: MissedRows)
    ensures
        total(a + b) == total(a).plus(total(b)),
        total(seq![one]) == one@,
        total(a + b).insert == total(a).insert + total(b).insert,
        total(a + b).update == total(a).update + total(b).update,
        total(a + b).delete == total(a).delete + total(b).delete,
    decreases b.len(),
{
    reveal_with_fuel(total, 2);
    assert(seq![one].drop_last() =~= Seq::<MissedRows>::empty());
    if b.len() == 0 {
        assert(a + b =~= a);
    } else {
        law_missed_rows_add_up(a, b.drop_last(), one);
        assert((a + b).drop_last() =~= a + b.drop_last());
    }
}

/// All the columns of a table are copied, in order; of a table that is filtered by
/// NULL, the rows without a key.
pub proof fn law_copies_take_every_column(
    table: Table,
    format: CopyFormat,
    out: crate::replication::copy::Copy,
    i: int,
)
    requires
        call_ensures(crate::replication::copy::Copy::new, (&table, format), out),
        0 <= i < table@.columns.len(),
    ensures
        out.spec_statement().columns.len() == table@.columns.len(),
        out.spec_statement().columns[i] == table@.columns[i].name@,
        out.spec_statement().table == table@.table,
        out.spec_statement().copy_format == format,
        table@.null_filter_column is None ==> out.spec_statement().predicate is None,
        table@.null_filter_column matches Some(column) ==> out.spec_statement().predicate == Some(
            is_null(column),
        ),
{
}

/// Where keys move, the rows of those keys are copied, by the column that the first
/// entry for the table names; a table that has none does not take part.
pub proof fn law_moves_copy_the_keys(
    table: Table,
    format: CopyFormat,
    scope: KeyMoveScope,
    out: Result<crate::replication::copy::Copy, Error>,
)
    requires
        call_ensures(crate::replication::copy::Copy::of_keys, (&table, format, &scope), out),
    ensures
        out is Ok <==> exists|i: int| #[trigger]
            is_first_entry(scope.spec_tables(), table@.table.schema, table@.table.name, i),
        out matches Ok(copy) ==> forall|i: int| #[trigger]
            is_first_entry(scope.spec_tables(), table@.table.schema, table@.table.name, i) ==> {
                &&& copy.spec_statement().predicate == Some(
                    key_condition(scope.spec_tables()[i].sharding_column@, scope.moving()),
                )
                &&& copy.spec_statement().table == table@.table
                &&& copy.spec_statement().columns.len() == table@.columns.len()
            },
{
    lemma_moved_column(scope.spec_tables(), table@.table.schema, table@.table.name);
}

/// Whether an entry is the first one for a table.
pub open spec fn is_first_entry(
    tables: Seq<MoveTable>,
    schema: Seq<char>,
    name: Seq<char>,
    i: int,
) -> bool {
    &&& 0 <= i < tables.len()
    &&& tables[i].schema@ == schema
    &&& tables[i].name@ == name
    &&& forall|j: int|
        0 <= j < i ==> (#[trigger] tables[j]).schema@ != schema || tables[j].name@ != name
}

proof fn lemma_moved_column(tables: Seq<MoveTable>, schema: Seq<char>, name: Seq<char>)
    ensures
        moved_column(tables, schema, name) is Some <==> exists|i: int| #[trigger]
            is_first_entry(tables, schema, name, i),
        forall|i: int| #[trigger]
            is_first_entry(tables, schema, name, i) ==> moved_column(tables, schema, name) == Some(
                tables[i].sharding_column@,
            ),
    decreases tables.len(),
{
    if tables.len() > 0 {
        let rest = tables.drop_first();
        if tables[0].schema@ == schema && tables[0].name@ == name {
            assert(is_first_entry(tables, schema, name, 0));
            assert forall|i: int| #[trigger]
                is_first_entry(tables, schema, name, i) implies i == 0 by {
                if i > 0 {
                    assert(tables[0].schema@ != schema || tables[0].name@ != name);
                }
            }
        } else {
            lemma_moved_column(rest, schema, name);
            assert forall|i: int| #[trigger]
                is_first_entry(tables, schema, name, i) implies is_first_entry(
                rest,
                schema,
                name,
                i - 1,
            ) by {
                assert(i > 0);
                assert(rest[i - 1] == tables[i]);
                assert forall|j: int| 0 <= j < i - 1 implies (#[trigger] rest[j]).schema@ != schema
                    || rest[j].name@ != name by {
                    assert(rest[j] == tables[j + 1]);
                }
            }
            assert forall|i: int| #[trigger]
                is_first_entry(rest, schema, name, i) implies is_first_entry(
                tables,
                schema,
                name,
                i + 1,
            ) by {
                assert(rest[i] == tables[i + 1]);
                assert forall|j: int| 0 <= j < i + 1 implies (
                #[trigger] tables[j]).schema@ != schema || tables[j].name@ != name by {
                    if j > 0 {
                        assert(rest[j - 1] == tables[j]);
                    }
                }
            }
            if exists|i: int| #[trigger] is_first_entry(rest, schema, name, i) {
                let i = choose|i: int| #[trigger] is_first_entry(rest, schema, name, i);
                assert(is_first_entry(tables, schema, name, i + 1));
            }
        }
    }
}

/// The server's answers to a copy: it starts with the word that it does, goes on with
/// data, and ends when the server is ready again. Anything else is out of step, and an
/// error is an error.
pub proof fn law_copies_follow_the_protocol(
    reply: Reply,
    started: Result<(), Error>,
    data: Result<CopyProgress, Error>,
)
    requires
        call_ensures(crate::replication::copy::Copy::started, (reply,), started),
        call_ensures(crate::replication::copy::Copy::data, (reply,), data),
    ensures
        started is Ok <==> reply == Reply::Message('H'),
        data is Ok && data->Ok_0 is Data <==> reply == Reply::Message('d'),
        data is Ok && data->Ok_0 is Continue <==> reply == Reply::Message('C') || reply
            == Reply::Message('c'),
        data is Ok && data->Ok_0 is Done <==> reply == Reply::Message('Z'),
        reply matches Reply::Error(e) ==> started == Err::<(), Error>(Error::PgError(e)) && data
            == Err::<CopyProgress, Error>(Error::PgError(e)),
        reply matches Reply::Message(c) ==> (started matches Err(e) ==> e == Error::OutOfSync(c))
            && (data matches Err(e) ==> e == Error::OutOfSync(c)),
{
}

/// Whether one table refers to another.
pub open spec fn refers_to(
    references: Seq<(Key, Key)>,
    from: TableView,
    to: TableView,
    r: int,
) -> bool {
    &&& 0 <= r < references.len()
    &&& references[r].0@.schema == from.table.schema
    &&& references[r].0@.name == from.table.name
    &&& references[r].1@.schema == to.table.schema
    &&& references[r].1@.name == to.table.name
}

/// Where the references between tables run in no circle, which a rank shows that falls
/// along each of them, no table comes before one that it refers to. No table is lost
/// or doubled, circle or not.
pub proof fn law_parents_come_first(
    tables: Vec<Table>,
    references: Vec<(Key, Key)>,
    out: Vec<Table>,
    rank: spec_fn(KeyView) -> nat,
    i: int,
    j: int,
    r: int,
)
    requires
        call_ensures(dependency_order, (tables, &references), out),
        forall|a: int, b: int, k: int|
            0 <= a < tables@.len() && 0 <= b < tables@.len() && (
            tables@[a]@.table.schema != tables@[b]@.table.schema || tables@[a]@.table.name
                != tables@[b]@.table.name) && #[trigger] refers_to(
                references@,
                tables@[a]@,
                tables@[b]@,
                k,
            ) ==> rank(key_of(tables@[b]@)) < rank(key_of(tables@[a]@)),
        0 <= i < j < out@.len(),
    ensures
        key_of(out@[i]@) != key_of(out@[j]@) ==> !refers_to(
            references@,
            out@[i]@,
            out@[j]@,
            r,
        ),
        out@.len() == tables@.len(),
        table_views(out@).to_multiset() == table_views(tables@).to_multiset(),
{
    let all = table_views(tables@);
    let list = table_views(out@);
    broadcast use vstd::seq_lib::group_to_multiset_ensures;

    assert(all.to_multiset().len() == list.to_multiset().len());
    assert forall|a: TableView, b: TableView| #[trigger]
        all.contains(a) && #[trigger] all.contains(b) && refers(
            references@,
            key_of(a),
            key_of(b),
        ) implies rank(key_of(b)) < rank(key_of(a)) by {
        let x = all.index_of(a);
        let y = all.index_of(b);
        let k = choose|k: int|
            0 <= k < references@.len() && (#[trigger] references@[k]).0@ == key_of(a)
                && references@[k].1@ == key_of(b);
        assert(all[x] == tables@[x]@ && all[y] == tables@[y]@);
        assert(refers_to(references@, tables@[x]@, tables@[y]@, k));
    }
    assert(ranked(all, references@, rank));
    assert(acyclic(all, references@));
    assert(parents_first(list, references@));
    assert(list[i] == out@[i]@ && list[j] == out@[j]@);
    if key_of(out@[i]@) != key_of(out@[j]@) && refers_to(references@, out@[i]@, out@[j]@, r) {
        assert(references@[r].0@ == key_of(list[i]));
        assert(references@[r].1@ == key_of(list[j]));
        assert(refers(references@, key_of(list[i]), key_of(list[j])));
    }
}

/// A shard's tables are copied as they are known, unless keys move; each of them, and
/// no other.
pub proof fn law_shards_copy_their_tables(
    publisher: Publisher,
    shard: Shard,
    number: usize,
    references: Vec<(Key, Key)>,
    out: Result<(Vec<Table>, Vec<usize>), Error>,
    t: TableView,
)
    requires
        call_ensures(shard_copies, (&publisher, &shard, number, &references), out),
    ensures
        out matches Ok(work) ==> {
            &&& publisher@.tables.contains_key(number)
            &&& work.1@.len() > 0
            &&& work.0@.len() == publisher@.tables[number].len()
            &&& table_views(work.0@).contains(t) <==> publisher@.tables[number].contains(t)
            &&& publisher@.key_move is None ==> table_views(work.0@) == publisher@.tables[number]
        },
        out is Err ==> !publisher@.tables.contains_key(number)
            || super::publisher::copy_sources(shard, shard.pools@.len()).len() == 0,
{
    broadcast use vstd::seq_lib::group_to_multiset_ensures;

    if let Ok(work) = out {
        let a = table_views(work.0@);
        let b = publisher@.tables[number];
        assert(a.to_multiset().count(t) == b.to_multiset().count(t));
        assert(a.to_multiset().len() == b.to_multiset().len());
    }
}

proof fn lemma_shards_with_rows(answers: Seq<Result<Vec<char>, Error>>)
    requires
        answers.len() <= usize::MAX,
    ensures
        ({
            let out = shards_with_rows(answers);
            &&& forall|j: int, k: int| 0 <= j < k < out.len() ==> out[j] < out[k]
            &&& forall|j: int| 0 <= j < out.len() ==> (#[trigger] out[j]) < answers.len()
            &&& forall|i: usize| #[trigger]
                out.contains(i) <==> i < answers.len() && answered_row(answers[i as int])
        }),
    decreases answers.len(),
{
    if answers.len() > 0 {
        let rest = answers.drop_last();
        let last = answers.len() - 1;
        lemma_shards_with_rows(rest);
        let before = shards_with_rows(rest);
        let out = shards_with_rows(answers);
        assert((last as usize) as int == last);
        assert forall|i: usize| #[trigger]
            out.contains(i) <==> i < answers.len() && answered_row(answers[i as int]) by {
            assert(before.contains(i) <==> i < rest.len() && answered_row(rest[i as int]));
            if answered_row(answers[last]) {
                vstd::seq_lib::lemma_seq_contains_after_push(before, last as usize, i);
            }
        }
        assert(forall|j: int| 0 <= j < before.len() ==> #[trigger] out[j] == before[j]);
        assert(forall|j: int| 0 <= j < before.len() ==> (#[trigger] before[j]) < last);
    }
}

/// Rows were found on the shards that answered with a row, on all of them and on no
/// other. One that did not answer counts as empty.
pub proof fn law_rows_are_found_where_they_are(
    answers: Vec<Result<Vec<char>, Error>>,
    out: Vec<usize>,
    i: usize,
)
    requires
        call_ensures(destination_has_rows, (&answers,), out),
        answers@.len() <= usize::MAX,
    ensures
        out@.contains(i) <==> i < answers@.len() && answers@[i as int] is Ok && (
        answers@[i as int])->Ok_0@.contains('D'),
        forall|j: int, k: int| 0 <= j < k < out@.len() ==> out@[j] < out@[k],
{
    lemma_shards_with_rows(answers@);
}

/// A table is copied when a worker is free and the copy has not been called off.
pub proof fn law_copies_start(permit: bool, cancelled: bool, out: Result<(), Error>)
    requires
        call_ensures(may_start, (permit, cancelled), out),
    ensures
        out is Ok <==> permit && !cancelled,
        !permit ==> out == Err::<(), Error>(Error::ParallelConnection),
        permit && cancelled ==> out == Err::<(), Error>(Error::DataSyncAborted),
{
}

/// The replicas take turns: a table is copied from the one behind the table before
/// it, and from the first one behind the last. No table is left out.
pub proof fn law_replicas_take_turns(
    manager: ParallelSyncManager,
    out: Vec<(Table, usize)>,
    i: int,
)
    requires
        manager.wf(),
        call_ensures(ParallelSyncManager::run, (manager,), out),
        0 <= i < out@.len(),
    ensures
        out@.len() == manager.spec_tables().len(),
        out@[i].0 == manager.spec_tables()[i],
        out@[i].1 < manager.spec_replicas(),
        i == 0 ==> out@[i].1 == 0,
        i + 1 < out@.len() ==> out@[i + 1].1 == (if out@[i].1 + 1 == manager.spec_replicas() {
            0int
        } else {
            out@[i].1 + 1
        }),
{
    let n = manager.spec_replicas() as int;
    assert(out@[i].1 == i % n);
    vstd::arithmetic::div_mod::lemma_mod_bound(i, n);
    if i == 0 {
        vstd::arithmetic::div_mod::lemma_small_mod(0, n as nat);
    }
    if i + 1 < out@.len() {
        assert(out@[i + 1].1 == (i + 1) % n);
        vstd::arithmetic::div_mod::lemma_fundamental_div_mod(i, n);
        let q = i / n;
        let r = i % n;
        if r + 1 == n {
            assert(i + 1 == n * (q + 1)) by (nonlinear_arith)
                requires
                    i == n * q + r,
                    r + 1 == n,
            ;
            vstd::arithmetic::div_mod::lemma_fundamental_div_mod_converse(i + 1, n, q + 1, 0);
        } else {
            vstd::arithmetic::div_mod::lemma_fundamental_div_mod_converse(i + 1, n, q, r + 1);
        }
    }
}

proof fn lemma_number_push(s: Seq<char>, c: char)
    ensures
        number(s.push(c)) == number(s) * 10 + ((c as nat) - ('0' as nat)) as nat,
{
    assert(s.push(c).drop_last() =~= s);
}

proof fn lemma_leading_zero(s: Seq<char>)
    ensures
        number(seq!['0'] + s) == number(s),
    decreases s.len(),
{
    if s.len() == 0 {
        assert(seq!['0'] + s =~= Seq::<char>::empty().push('0'));
        lemma_number_push(Seq::empty(), '0');
        assert(number(Seq::<char>::empty()) == 0);
    } else {
        lemma_leading_zero(s.drop_last());
        assert((seq!['0'] + s).drop_last() =~= seq!['0'] + s.drop_last());
        assert((seq!['0'] + s).last() == s.last());
    }
}

/// What is read of a number: a sign in front of it counts, zeroes in front of it do
/// not, and each digit behind it counts ten times less than the one before.
pub proof fn law_numbers_are_read(digits: Seq<char>, c: char)
    requires
        all_digits(digits),
        is_digit(c),
    ensures
        integer(digits) is Some,
        integer(digits)->0 >= 0,
        integer(seq!['+'] + digits) == integer(digits),
        integer(seq!['-'] + digits) == Some(-integer(digits)->0),
        integer(seq!['0'] + digits) == integer(digits),
        integer(digits.push(c)) == Some(integer(digits)->0 * 10 + (c as int - '0' as int)),
        integer(seq![c]) == Some(c as int - '0' as int),
{
    assert((seq!['+'] + digits).skip(1) =~= digits);
    assert((seq!['-'] + digits).skip(1) =~= digits);
    assert(is_digit(digits[0]));
    lemma_leading_zero(digits);
    lemma_number_push(digits, c);
    let more = seq!['0'] + digits;
    assert(all_digits(more)) by {
        assert forall|i: int| 0 <= i < more.len() implies is_digit(#[trigger] more[i]) by {
            if i > 0 {
                assert(more[i] == digits[i - 1]);
            }
        }
    }
    let longer = digits.push(c);
    assert(all_digits(longer)) by {
        assert forall|i: int| 0 <= i < longer.len() implies is_digit(#[trigger] longer[i]) by {
            if i < digits.len() {
                assert(longer[i] == digits[i]);
            }
        }
    }
    assert(longer[0] == digits[0]);
    assert(seq![c] =~= Seq::<char>::empty().push(c));
    lemma_number_push(Seq::empty(), c);
    assert(number(Seq::<char>::empty()) == 0);
    assert(all_digits(seq![c])) by {
        assert forall|i: int| 0 <= i < seq![c].len() implies is_digit(#[trigger] seq![c][i]) by {}
    }
}

/// What is not a number is not read, nor is one that a bigint can't hold.
pub proof fn law_other_texts_are_no_numbers(s: Seq<char>, i: int)
    ensures
        s.len() == 0 ==> integer(s) is None,
        0 <= i < s.len() && !is_digit(s[i]) && (i > 0 || (s[i] != '-' && s[i] != '+'))
            ==> integer(s) is None,
        s.len() == 1 && !is_digit(s[0]) ==> integer(s) is None,
        bigint(s) is Some <==> integer(s) is Some && i64::MIN <= integer(s)->0 <= i64::MAX,
        bigint(s) is Some ==> bigint(s) == integer(s),
{
    if 0 < i < s.len() {
        assert(s.skip(1)[i - 1] == s[i]);
    }
    if s.len() == 1 {
        assert(s.skip(1).len() == 0);
    }
}

/// A UUID is the same in every form that it can be written in: in braces, behind its
/// URN prefix, or as it is; and without hyphens, where these are put back.
pub proof fn law_uuids_are_the_same_in_every_form(u: Seq<char>, plain: Seq<char>)
    requires
        is_hyphenated(u),
        plain == u.subrange(0, 8) + u.subrange(9, 13) + u.subrange(14, 18) + u.subrange(19, 23)
            + u.subrange(24, 36),
    ensures
        canonical_text(u, DataType::Uuid) == Some(lower(u)),
        canonical_text(seq!['{'] + u + seq!['}'], DataType::Uuid) == Some(lower(u)),
        canonical_text("urn:uuid:"@ + u, DataType::Uuid) == Some(lower(u)),
        canonical_text(plain, DataType::Uuid) == Some(lower(u)),
{
    reveal_strlit("urn:uuid:");
    let braced = seq!['{'] + u + seq!['}'];
    assert(braced.subrange(1, 37) =~= u);
    assert(braced.len() == 38 && braced[0] == '{' && braced[37] == '}');
    let urn = "urn:uuid:"@ + u;
    assert(urn.len() == 45);
    assert(urn.skip(9) =~= u);
    assert(urn.take(9) =~= "urn:uuid:"@);
    assert(lower("urn:uuid:"@) =~= "urn:uuid:"@);
    assert(plain.len() == 32);
    assert forall|i: int| 0 <= i < 32 implies is_hex(#[trigger] plain[i]) by {
        if i < 8 {
            assert(plain[i] == u[i]);
        } else if i < 12 {
            assert(plain[i] == u[i + 1]);
        } else if i < 16 {
            assert(plain[i] == u[i + 2]);
        } else if i < 20 {
            assert(plain[i] == u[i + 3]);
        } else {
            assert(plain[i] == u[i + 4]);
        }
    }
    assert(u[8] == '-' && u[13] == '-' && u[18] == '-' && u[23] == '-');
    assert(grouped(plain) =~= u);
}

/// A move takes keys that its tables can have, of which there must be some and which
/// must agree on the type of the key. The keys that move are those given, in one form
/// each.
pub proof fn law_moves_take_valid_keys(
    keys: Vec<String>,
    source: usize,
    target: usize,
    tables: Vec<MoveTable>,
    out: Result<KeyMoveScope, Error>,
    k: Seq<char>,
)
    requires
        call_ensures(KeyMoveScope::new, (&keys, source, target, tables), out),
    ensures
        out is Ok <==> tables@.len() > 0 && (forall|i: int|
            0 <= i < tables@.len() ==> (#[trigger] tables@[i]).data_type == tables@[0].data_type)
            && (forall|i: int|
            0 <= i < keys@.len() ==> canonical_text(
                (#[trigger] keys@[i])@,
                tables@[0].data_type,
            ) is Some),
        out matches Ok(scope) ==> {
            &&& scope.spec_source() == source
            &&& scope.spec_target() == target
            &&& scope.spec_tables() == tables@
            &&& scope.moving().no_duplicates()
            &&& scope.moving().contains(k) <==> exists|i: int|
                0 <= i < keys@.len() && canonical_text(
                    (#[trigger] keys@[i])@,
                    tables@[0].data_type,
                ) == Some(k)
        },
{
}

/// The options of the command line ask for the phase after the data before they ask for
/// the cutover, and for the phase before the data where they ask for neither. Each
/// phase runs its own statements.
pub proof fn law_phases_are_asked_for(
    complete: bool,
    cutover: bool,
    out: SchemaSyncPhase,
    state: SyncState,
)
    requires
        call_ensures(phase, (complete, cutover), out),
        call_ensures(SchemaSyncPhase::sync_state, (&out,), state),
    ensures
        complete ==> out == SchemaSyncPhase::Post && state == SyncState::PostData,
        !complete && cutover ==> out == SchemaSyncPhase::Cutover && state == SyncState::Cutover,
        !complete && !cutover ==> out == SchemaSyncPhase::Pre && state == SyncState::PreData,
{
}

/// Some work has succeeded where all of it has; otherwise the first failure counts.
pub proof fn law_the_first_failure_counts(
    results: Vec<Result<(), Error>>,
    out: Result<(), Error>,
    i: int,
)
    requires
        call_ensures(first_error, (results,), out),
        0 <= i < results@.len(),
    ensures
        out is Ok ==> results@[i] is Ok,
        results@[i] is Err ==> out is Err,
        results@[i] is Err && (forall|j: int| 0 <= j < i ==> (#[trigger] results@[j]) is Ok)
            ==> out == results@[i],
{
    let args = (results,);
    assert(args.0@ == results@);
    if let Err(e) = out {
        let k = choose|k: int|
            0 <= k < results@.len() && #[trigger] results@[k] == Err::<(), Error>(e) && forall|
                j: int,
            |
                0 <= j < k ==> (#[trigger] results@[j]) is Ok;
        if results@[i] is Err && (forall|j: int| 0 <= j < i ==> (#[trigger] results@[j]) is Ok) {
            if k < i {
                assert(results@[k] is Ok);
            }
            if i < k {
                assert(results@[i] is Ok);
            }
        }
    }
}

/// All slots are given up to be dropped, each once, and none is left.
pub proof fn law_slots_are_dropped(p: &mut Publisher, out: Vec<usize>, shard: usize)
    requires
        call_ensures(Publisher::cleanup, (p,), out),
    ensures
        out@.contains(shard) <==> old(p)@.slots.contains_key(shard),
        out@.no_duplicates(),
        !final(p)@.slots.contains_key(shard),
        final(p)@.tables == old(p)@.tables,
{
    assert(out@.to_set().contains(shard) == old(p)@.slots.dom().contains(shard));
}

/// The time since the last transaction is counted from it; it is nothing where clocks
/// run backwards, and not known without one.
pub proof fn law_time_since_the_last_transaction(p: Publisher, now: u128, out: Option<u128>)
    requires
        call_ensures(Publisher::last_transaction, (&p, now), out),
    ensures
        out is Some <==> p@.last_transaction is Some,
        out matches Some(passed) ==> {
            let last = p@.last_transaction->0;
            &&& now >= last ==> last + passed == now
            &&& now < last ==> passed == 0
        },
{
}

/// The slots are needed until there is one.
pub proof fn law_slots_are_needed_once(p: Publisher, b: bool, shard: usize)
    requires
        call_ensures(Publisher::needs_slots, (&p,), b),
        p@.slots.dom().finite(),
    ensures
        p@.slots.contains_key(shard) ==> !b,
        p@.slots.dom() == Set::<usize>::empty() ==> b,
{
    if p@.slots.contains_key(shard) {
        assert(p@.slots.dom().contains(shard));
    }
}

/// A new orchestrator works between two configured clusters, for the publication given
/// and with the slot given; a slot that is not given is named at random.
pub proof fn law_orchestrators_are_configured(
    databases: Databases,
    source: String,
    destination: String,
    publication: &'static str,
    slot: Option<String>,
    random: &'static str,
    out: Result<Orchestrator, Error>,
)
    requires
        call_ensures(
            Orchestrator::new,
            (&databases, &source, &destination, publication, slot, random),
            out,
        ),
    ensures
        out is Ok <==> databases@.contains_key(source@) && databases@.contains_key(destination@),
        out matches Ok(o) ==> {
            &&& o@.source == databases@[source@]
            &&& o@.destination == databases@[destination@]
            &&& o@.publication == publication@
            &&& slot matches Some(name) ==> o@.replication_slot == name@
            &&& slot is None ==> o@.replication_slot == "__pgdog_repl_"@ + lower(random@)
            &&& o@.publisher.publication == publication@
            &&& o@.publisher.slot_name == o@.replication_slot
            &&& o@.publisher.slots.dom() == Set::<usize>::empty()
            &&& o@.source_shard is None
            &&& !o@.fixed_destination
            &&& !o@.schema_only
        },
{
}

/// An orchestrator for a shard that is being added reads one shard of the source, and
/// writes to the cluster that the caller gave.
pub proof fn law_provisioning_reads_one_shard(
    databases: Databases,
    source: String,
    destination: Arc<Cluster>,
    publication: &'static str,
    shard: usize,
    random: &'static str,
    out: Result<Orchestrator, Error>,
)
    requires
        call_ensures(
            Orchestrator::for_provisioning,
            (&databases, &source, destination, publication, shard, random),
            out,
        ),
    ensures
        out is Ok <==> databases@.contains_key(source@) && shard
            < databases@[source@].shards@.len(),
        out matches Ok(o) ==> {
            &&& o@.source.shards@.len() == 1
            &&& o@.source.shards@[0] == databases@[source@].shards@[shard as int]
            &&& o@.source.database == databases@[source@].database
            &&& o@.destination == destination
            &&& o@.fixed_destination
            &&& o@.source_shard == Some(shard)
            &&& o@.publication == publication@
            &&& o@.publisher.slot_name == o@.replication_slot
            &&& !o@.schema_only
        },
{
}

/// Bound to one shard of its source, an orchestrator starts over with its publisher,
/// and is otherwise the same.
pub proof fn law_orchestrators_are_bound_to_a_shard(
    o: Orchestrator,
    shard: usize,
    out: Result<Orchestrator, Error>,
)
    requires
        call_ensures(Orchestrator::with_source_shard, (o, shard), out),
    ensures
        out is Ok <==> shard < o@.source.shards@.len(),
        out matches Ok(bound) ==> {
            &&& bound@.source.shards@.len() == 1
            &&& bound@.source.shards@[0] == o@.source.shards@[shard as int]
            &&& bound@.source_shard == Some(shard)
            &&& bound@.destination == o@.destination
            &&& bound@.publication == o@.publication
            &&& bound@.replication_slot == o@.replication_slot
            &&& bound@.publisher.tables.dom() == Set::<usize>::empty()
            &&& bound@.publisher.slots.dom() == Set::<usize>::empty()
        },
{
}

/// A schema is synced between two configured clusters, and a dump checks the
/// publication unless there is none.
pub proof fn law_schema_syncs_are_configured(
    databases: Databases,
    source: String,
    destination: String,
    publication: &'static str,
    out: Result<SchemaSync, Error>,
)
    requires
        call_ensures(SchemaSync::new, (&databases, &source, &destination, publication), out),
    ensures
        out is Ok <==> databases@.contains_key(source@) && databases@.contains_key(destination@),
        out matches Ok(s) ==> s@.source == databases@[source@] && s@.destination
            == databases@[destination@] && s@.publication == publication@ && !s@.schema_only
            && !s@.fixed_destination,
{
}

/// The dump of a schema sync is of its source, and checks the publication that the sync
/// has, if it has one.
pub proof fn law_schema_syncs_dump_their_source(s: SchemaSync, dump: PgDump, shards: usize)
    requires
        call_ensures(SchemaSync::dump, (&s,), dump),
        call_ensures(SchemaSync::shards, (&s,), shards),
    ensures
        dump.spec_source() == s@.source,
        dump.verifies() <==> !s@.schema_only,
        dump.verifies() ==> dump.spec_publication() == s@.publication,
        shards == s@.destination.shards@.len(),
{
}

/// Looking both ends of a schema sync up again keeps what it is for; a destination of
/// the caller's own stays.
pub proof fn law_schema_syncs_are_refreshed(
    s: &mut SchemaSync,
    databases: Databases,
    out: Result<(), Error>,
)
    requires
        call_ensures(SchemaSync::refresh, (s, &databases), out),
    ensures
        final(s)@.publication == old(s)@.publication,
        final(s)@.schema_only == old(s)@.schema_only,
        final(s)@.fixed_destination == old(s)@.fixed_destination,
        old(s)@.fixed_destination ==> final(s)@.destination == old(s)@.destination,
        out is Ok ==> databases@.contains_key(old(s)@.source.database@) && final(s)@.source
            == databases@[old(s)@.source.database@],
        out is Ok && !old(s)@.fixed_destination ==> databases@.contains_key(
            old(s)@.destination.database@,
        ) && final(s)@.destination == databases@[old(s)@.destination.database@],
{
}

/// There are as many workers as replicas and copies of each allow, and each replica
/// gets its share of them. Where keys move, tables are copied one after another.
pub proof fn law_workers_are_shared_out(
    tables: Vec<Table>,
    replicas: usize,
    copies: usize,
    key_move: Option<Arc<KeyMoveScope>>,
    out: Result<ParallelSyncManager, Error>,
    sequential: bool,
    share: usize,
)
    requires
        call_ensures(ParallelSyncManager::new, (tables, replicas, copies, key_move), out),
        out matches Ok(manager) ==> call_ensures(
            ParallelSyncManager::sequential,
            (&manager,),
            sequential,
        ) && call_ensures(ParallelSyncManager::parallel_copies, (&manager,), share),
    ensures
        out is Ok <==> replicas > 0,
        out matches Err(e) ==> e is NoReplicas,
        out matches Ok(manager) ==> {
            &&& manager.spec_permits() == replicas * copies
            &&& manager.spec_tables() == tables@
            &&& share == copies
            &&& sequential <==> key_move is Some
        },
{
    if replicas > 0 {
        let r = replicas as int;
        let c = copies as int;
        vstd::arithmetic::div_mod::lemma_div_multiples_vanish(c, r);
        assert(c * r == r * c) by (nonlinear_arith);
    }
}

/// A text is a key as it is, and a vector is never one.
pub proof fn law_texts_are_keys_as_they_are(value: Seq<char>)
    ensures
        canonical_text(value, DataType::Varchar) == Some(value),
        canonical_text(value, DataType::Vector) is None,
        canonical_text(value, DataType::Bigint) is Some <==> bigint(value) is Some,
{
}

} // verus!
