//! Which tables each source shard is left with once they have been loaded, and which
//! databases of a shard they are copied from.

use std::sync::Arc;
use vstd::prelude::*;

use super::error::Error;
use super::hybrid::HybridNullTable;
use super::publisher::{
    all_annotated, annotated, copies_from, copy_pools, copy_sources, dealt, has_column,
    has_replicas, has_resharding_only, hybrid_for, key_of, loaded, lsn_map, merged, place_of, put,
    split, table_views, tables_of, Progress, Publisher, PublisherView,
};
use super::publisher_laws::{
    law_every_table_is_dealt, law_put_keeps_names_apart, lemma_dealt_from, lemma_place_of,
};
use super::stream::StreamSubscriber;
use super::table::{KeyView, Table, TableView};
use crate::cluster::{Cluster, Role, Shard};
use crate::sharded_tables::ShardedTables;

verus! {

proof fn lemma_copy_sources(shard: Shard, n: nat)
    requires
        n <= shard.pools@.len() <= usize::MAX,
    ensures
        ({
            let out = copy_sources(shard, n);
            &&& forall|j: int, k: int| 0 <= j < k < out.len() ==> out[j] < out[k]
            &&& forall|j: int| 0 <= j < out.len() ==> (#[trigger] out[j]) < n
            &&& forall|i: usize| #[trigger]
                out.contains(i) <==> i < n && copies_from(shard, i as int)
        }),
    decreases n,
{
    if n > 0 {
        lemma_copy_sources(shard, (n - 1) as nat);
        let before = copy_sources(shard, (n - 1) as nat);
        let out = copy_sources(shard, n);
        assert((n - 1) as usize == n - 1);
        assert forall|i: usize| #[trigger]
            out.contains(i) <==> i < n && copies_from(shard, i as int) by {
            if copies_from(shard, n - 1) {
                vstd::seq_lib::lemma_seq_contains_after_push(before, (n - 1) as usize, i);
            }
            assert(before.contains(i) <==> i < n - 1 && copies_from(shard, i as int));
        }
        assert(forall|j: int| 0 <= j < before.len() ==> #[trigger] out[j] == before[j]);
        assert(forall|j: int| 0 <= j < before.len() ==> (#[trigger] before[j]) < n - 1);
    }
}

/// The databases that tables are copied from: where some are set aside for
/// resharding, exactly those; otherwise exactly the replicas, where there are any;
/// otherwise exactly the primary. Each is named once, in order.
pub proof fn law_copies_come_from(shard: Shard, out: Vec<usize>, i: usize)
    requires
        call_ensures(copy_pools, (&shard,), out),
        i < shard.pools@.len() <= usize::MAX,
    ensures
        ({
            let pools = shard.pools@;
            let aside = exists|k: int|
                0 <= k < pools.len() && (#[trigger] pools[k]).resharding_only;
            let replicas = exists|k: int|
                0 <= k < pools.len() && (#[trigger] pools[k]).role == Role::Replica;
            out@.contains(i) <==> if aside {
                pools[i as int].resharding_only
            } else if replicas {
                pools[i as int].role == Role::Replica
            } else {
                pools[i as int].role == Role::Primary
            }
        }),
        forall|j: int, k: int| 0 <= j < k < out@.len() ==> out@[j] < out@[k],
        forall|j: int| 0 <= j < out@.len() ==> (#[trigger] out@[j]) < shard.pools@.len(),
{
    lemma_copy_sources(shard, shard.pools@.len());
}

/// A shard with a primary or a replica always has a database to copy from.
pub proof fn law_there_is_one_to_copy_from(shard: Shard, out: Vec<usize>, i: int)
    requires
        call_ensures(copy_pools, (&shard,), out),
        0 <= i < shard.pools@.len() <= usize::MAX,
        shard.pools@[i].role == Role::Primary || shard.pools@[i].role == Role::Replica,
    ensures
        out@.len() > 0,
{
    lemma_copy_sources(shard, shard.pools@.len());
    let from = if has_resharding_only(shard) {
        choose|k: int| 0 <= k < shard.pools@.len() && (#[trigger] shard.pools@[k]).resharding_only
    } else if has_replicas(shard) {
        choose|k: int|
            0 <= k < shard.pools@.len() && (#[trigger] shard.pools@[k]).role == Role::Replica
    } else {
        i
    };
    assert(copies_from(shard, from));
    assert((from as usize) as int == from);
    assert(out@.contains(from as usize));
}

/// Whether a table is another one, but for the column that filters its rows.
pub open spec fn is_same_table(t: TableView, u: TableView) -> bool {
    t == (TableView { null_filter_column: t.null_filter_column, ..u })
}

/// Whether a filter is meant for a table: it names the table's destination, and its
/// schema where it names one.
pub open spec fn is_meant_for(h: HybridNullTable, t: TableView) -> bool {
    let schema = if t.table.parent_schema.len() == 0 {
        t.table.schema
    } else {
        t.table.parent_schema
    };
    let name = if t.table.parent_name.len() == 0 {
        t.table.name
    } else {
        t.table.parent_name
    };
    h.name@ == name && (h.schema matches Some(s) ==> s@ == schema)
}

/// Whether a filter is the first one that is meant for a table.
pub open spec fn is_filter_of(hybrid: Seq<HybridNullTable>, t: TableView, k: int) -> bool {
    &&& 0 <= k < hybrid.len()
    &&& is_meant_for(hybrid[k], t)
    &&& forall|j: int| 0 <= j < k ==> !is_meant_for(#[trigger] hybrid[j], t)
}

/// Whether a table has a column.
pub open spec fn is_column(t: TableView, name: Seq<char>) -> bool {
    exists|i: int| 0 <= i < t.columns.len() && (#[trigger] t.columns[i]).name@ == name
}

/// Whether a table's filter names a column that it does not have.
pub open spec fn lacks_filter_column(hybrid: Seq<HybridNullTable>, t: TableView) -> bool {
    exists|k: int| #[trigger] is_filter_of(hybrid, t, k) && !is_column(t, hybrid[k].column@)
}

/// Whether a table has the column of its filter set, where a filter is meant for it.
pub open spec fn has_its_filter(
    hybrid: Seq<HybridNullTable>,
    before: TableView,
    after: TableView,
) -> bool {
    &&& is_same_table(after, before)
    &&& forall|k: int| #[trigger]
        is_filter_of(hybrid, before, k) ==> after.null_filter_column == Some(hybrid[k].column@)
    &&& (forall|k: int| !(#[trigger] is_filter_of(hybrid, before, k))) ==> after == before
}

proof fn lemma_hybrid_for(hybrid: Seq<HybridNullTable>, t: TableView)
    ensures
        match hybrid_for(hybrid, t.table.destination_schema(), t.table.destination_name()) {
            None => forall|j: int|
                0 <= j < hybrid.len() ==> !is_meant_for(#[trigger] hybrid[j], t),
            Some(h) => exists|k: int| #[trigger] is_filter_of(hybrid, t, k) && hybrid[k] == h,
        },
    decreases hybrid.len(),
{
    if hybrid.len() > 0 {
        if is_meant_for(hybrid[0], t) {
            assert(is_filter_of(hybrid, t, 0));
        } else {
            let rest = hybrid.drop_first();
            lemma_hybrid_for(rest, t);
            match hybrid_for(rest, t.table.destination_schema(), t.table.destination_name()) {
                None => {
                    assert forall|j: int| 0 <= j < hybrid.len() implies !is_meant_for(
                        #[trigger] hybrid[j],
                        t,
                    ) by {
                        if j > 0 {
                            assert(rest[j - 1] == hybrid[j]);
                        }
                    }
                },
                Some(h) => {
                    let k = choose|k: int| #[trigger] is_filter_of(rest, t, k) && rest[k] == h;
                    assert forall|j: int| 0 <= j < k + 1 implies !is_meant_for(
                        #[trigger] hybrid[j],
                        t,
                    ) by {
                        if j > 0 {
                            assert(rest[j - 1] == hybrid[j]);
                        }
                    }
                    assert(hybrid[k + 1] == rest[k]);
                    assert(is_filter_of(hybrid, t, k + 1));
                },
            }
        }
    }
}

proof fn lemma_one_filter(hybrid: Seq<HybridNullTable>, t: TableView, j: int, k: int)
    requires
        is_filter_of(hybrid, t, j),
        is_filter_of(hybrid, t, k),
    ensures
        j == k,
{
    if j < k {
        assert(!is_meant_for(hybrid[j], t));
    }
    if k < j {
        assert(!is_meant_for(hybrid[k], t));
    }
}

proof fn lemma_annotated(hybrid: Seq<HybridNullTable>, t: TableView)
    ensures
        match annotated(hybrid, t) {
            Ok(after) => has_its_filter(hybrid, t, after) && !lacks_filter_column(hybrid, t),
            Err(column) => lacks_filter_column(hybrid, t),
        },
{
    lemma_hybrid_for(hybrid, t);
    match hybrid_for(hybrid, t.table.destination_schema(), t.table.destination_name()) {
        None => {},
        Some(h) => {
            let k = choose|k: int| #[trigger] is_filter_of(hybrid, t, k) && hybrid[k] == h;
            assert forall|j: int| #[trigger] is_filter_of(hybrid, t, j) implies j == k by {
                lemma_one_filter(hybrid, t, j, k);
            }
            assert(is_column(t, h.column@) == has_column(t.columns, h.column@));
        },
    }
}

proof fn lemma_all_annotated(hybrid: Seq<HybridNullTable>, tables: Seq<TableView>)
    ensures
        match all_annotated(hybrid, tables) {
            Ok(out) => {
                &&& out.len() == tables.len()
                &&& forall|i: int|
                    0 <= i < tables.len() ==> has_its_filter(hybrid, tables[i], #[trigger] out[i])
                &&& forall|i: int|
                    0 <= i < tables.len() ==> !lacks_filter_column(hybrid, #[trigger] tables[i])
            },
            Err(_) => exists|i: int|
                0 <= i < tables.len() && lacks_filter_column(hybrid, #[trigger] tables[i]),
        },
    decreases tables.len(),
{
    if tables.len() > 0 {
        let before = tables.drop_last();
        lemma_all_annotated(hybrid, before);
        lemma_annotated(hybrid, tables.last());
        assert(tables.last() == tables[tables.len() - 1]);
        assert(forall|i: int| 0 <= i < before.len() ==> #[trigger] before[i] == tables[i]);
        match all_annotated(hybrid, before) {
            Err(_) => {
                let i = choose|i: int|
                    0 <= i < before.len() && lacks_filter_column(hybrid, #[trigger] before[i]);
                assert(before[i] == tables[i]);
            },
            Ok(some) => {
                if let Ok(out) = all_annotated(hybrid, tables) {
                    assert forall|i: int| 0 <= i < tables.len() implies has_its_filter(
                        hybrid,
                        tables[i],
                        #[trigger] out[i],
                    ) by {
                        if i < before.len() {
                            assert(has_its_filter(hybrid, before[i], some[i]));
                        }
                    }
                    assert forall|i: int| 0 <= i < tables.len() implies !lacks_filter_column(
                        hybrid,
                        #[trigger] tables[i],
                    ) by {
                        if i < before.len() {
                            assert(!lacks_filter_column(hybrid, before[i]));
                        }
                    }
                }
            },
        }
    }
}

/// The tables of a shard, each with the column of its filter, in order; it fails where
/// a table does not have that column, and only there.
pub proof fn law_tables_get_their_filters(
    p: Publisher,
    tables: Vec<Table>,
    out: Result<Vec<Table>, Error>,
)
    requires
        call_ensures(Publisher::annotate_hybrid_tables, (&p, tables), out),
    ensures
        out is Err <==> exists|i: int|
            0 <= i < tables@.len() && lacks_filter_column(
                p@.hybrid_tables,
                (#[trigger] tables@[i])@,
            ),
        out matches Ok(found) ==> found@.len() == tables@.len() && forall|i: int|
            0 <= i < tables@.len() ==> has_its_filter(
                p@.hybrid_tables,
                tables@[i]@,
                (#[trigger] found@[i])@,
            ),
{
    let views = table_views(tables@);
    lemma_all_annotated(p@.hybrid_tables, views);
    assert(forall|i: int| 0 <= i < tables@.len() ==> #[trigger] views[i] == tables@[i]@);
    match all_annotated(p@.hybrid_tables, views) {
        Err(_) => {
            let i = choose|i: int|
                0 <= i < views.len() && lacks_filter_column(
                    p@.hybrid_tables,
                    #[trigger] views[i],
                );
            assert(views[i] == tables@[i]@);
        },
        Ok(expected) => {
            if let Ok(found) = out {
                assert(table_views(found@) == expected);
                assert(found@.len() == table_views(found@).len());
                assert forall|i: int| 0 <= i < tables@.len() implies has_its_filter(
                    p@.hybrid_tables,
                    tables@[i]@,
                    (#[trigger] found@[i])@,
                ) by {
                    assert(table_views(found@)[i] == found@[i]@);
                    assert(has_its_filter(p@.hybrid_tables, views[i], expected[i]));
                }
            }
            assert forall|i: int| 0 <= i < tables@.len() implies !lacks_filter_column(
                p@.hybrid_tables,
                (#[trigger] tables@[i])@,
            ) by {
                assert(views[i] == tables@[i]@);
            }
        },
    }
}

/// Whether a list holds a table, but for its filter.
pub open spec fn holds_table(list: Seq<TableView>, t: TableView) -> bool {
    exists|i: int| 0 <= i < list.len() && is_same_table(#[trigger] list[i], t)
}

/// Whether a list holds a table that is on every shard, by its name.
pub open spec fn holds_omni(
    list: Seq<TableView>,
    rules: ShardedTables,
    schema: Seq<char>,
    name: Seq<char>,
) -> bool {
    exists|i: int|
        0 <= i < list.len() && (#[trigger] list[i]).table.schema == schema && list[i].table.name
            == name && !list[i].sharded_by(rules)
}

/// Whether no two tables of a list have the same name.
spec fn names_apart(list: Seq<TableView>) -> bool {
    forall|i: int, j: int|
        0 <= i < j < list.len() ==> key_of(#[trigger] list[i]) != key_of(#[trigger] list[j])
}

spec fn none_sharded(list: Seq<TableView>, rules: ShardedTables) -> bool {
    forall|i: int| 0 <= i < list.len() ==> !(#[trigger] list[i]).sharded_by(rules)
}

spec fn holds_key(list: Seq<TableView>, key: KeyView) -> bool {
    exists|i: int| 0 <= i < list.len() && key_of(#[trigger] list[i]) == key
}

proof fn lemma_put(list: Seq<TableView>, t: TableView, rules: ShardedTables)
    requires
        names_apart(list),
        none_sharded(list, rules),
        !t.sharded_by(rules),
    ensures
        names_apart(put(list, t)),
        none_sharded(put(list, t), rules),
        holds_key(put(list, t), key_of(t)),
        forall|key: KeyView| holds_key(list, key) ==> #[trigger] holds_key(put(list, t), key),
        forall|i: int|
            0 <= i < put(list, t).len() ==> put(list, t)[i] == t || list.contains(
                #[trigger] put(list, t)[i],
            ),
{
    law_put_keeps_names_apart(list, t);
    lemma_place_of(list, key_of(t));
    let out = put(list, t);
    let p = place_of(list, key_of(t));
    if p >= 0 {
        assert(key_of(out[p]) == key_of(t));
    } else {
        assert(key_of(out[list.len() as int]) == key_of(t));
    }
    assert forall|key: KeyView| holds_key(list, key) implies #[trigger] holds_key(out, key) by {
        let i = choose|i: int| 0 <= i < list.len() && key_of(#[trigger] list[i]) == key;
        assert(key_of(out[i]) == key);
    }
    assert forall|i: int| 0 <= i < out.len() implies out[i] == t || list.contains(
        #[trigger] out[i],
    ) by {
        if i < list.len() && i != p {
            assert(out[i] == list[i]);
        }
    }
}

/// What holds of the tables that have been split so far.
spec fn in_order(p: Progress, rules: ShardedTables) -> bool {
    names_apart(p.omni) && none_sharded(p.omni, rules)
}

proof fn lemma_split(p: Progress, shard: usize, tables: Seq<TableView>, rules: ShardedTables)
    requires
        in_order(p, rules),
    ensures
        ({
            let q = split(p, shard, tables, rules);
            let was = tables_of(p.tables, shard);
            let now = tables_of(q.tables, shard);
            &&& in_order(q, rules)
            &&& forall|k: usize| k != shard ==> #[trigger] tables_of(q.tables, k) == tables_of(
                p.tables,
                k,
            )
            &&& forall|k: usize| k != shard ==> #[trigger] q.tables.contains_key(k)
                == p.tables.contains_key(k)
            &&& was.len() <= now.len()
            &&& forall|i: int| 0 <= i < was.len() ==> now[i] == was[i]
            &&& forall|i: int|
                was.len() <= i < now.len() ==> tables.contains(#[trigger] now[i])
                    && now[i].sharded_by(rules)
            &&& forall|i: int|
                0 <= i < tables.len() && tables[i].sharded_by(rules) ==> now.contains(
                    #[trigger] tables[i],
                )
            &&& forall|i: int|
                0 <= i < tables.len() && !tables[i].sharded_by(rules) ==> holds_key(
                    q.omni,
                    key_of(#[trigger] tables[i]),
                )
            &&& forall|key: KeyView| holds_key(p.omni, key) ==> #[trigger] holds_key(q.omni, key)
            &&& forall|i: int|
                0 <= i < q.omni.len() ==> p.omni.contains(q.omni[i]) || tables.contains(
                    #[trigger] q.omni[i],
                )
        }),
    decreases tables.len(),
{
    if tables.len() > 0 {
        let rest = tables.drop_last();
        let t = tables.last();
        assert(t == tables[tables.len() - 1]);
        lemma_split(p, shard, rest, rules);
        let r = split(p, shard, rest, rules);
        let q = split(p, shard, tables, rules);
        let was = tables_of(p.tables, shard);
        let mid = tables_of(r.tables, shard);
        let now = tables_of(q.tables, shard);
        assert forall|x: TableView| rest.contains(x) implies tables.contains(x) by {
            let i = rest.index_of(x);
            assert(tables[i] == x);
        }
        assert forall|k: usize| k != shard implies #[trigger] tables_of(q.tables, k) == tables_of(
            p.tables,
            k,
        ) by {
            assert(tables_of(r.tables, k) == tables_of(p.tables, k));
            assert(q.tables.contains_key(k) == r.tables.contains_key(k));
        }
        if t.sharded_by(rules) {
            assert(now == mid.push(t));
            assert(now[mid.len() as int] == t);
            assert forall|i: int|
                was.len() <= i < now.len() implies tables.contains(#[trigger] now[i])
                && now[i].sharded_by(rules) by {
                if i < mid.len() {
                    assert(now[i] == mid[i]);
                }
            }
            assert forall|i: int|
                0 <= i < tables.len() && tables[i].sharded_by(rules) implies now.contains(
                #[trigger] tables[i],
            ) by {
                if i < rest.len() {
                    assert(rest[i] == tables[i]);
                    let k = mid.index_of(rest[i]);
                    assert(now[k] == mid[k]);
                }
            }
            assert forall|i: int|
                0 <= i < tables.len() && !tables[i].sharded_by(rules) implies holds_key(
                q.omni,
                key_of(#[trigger] tables[i]),
            ) by {
                assert(rest[i] == tables[i]);
            }
            assert forall|i: int| 0 <= i < q.omni.len() implies p.omni.contains(q.omni[i])
                || tables.contains(#[trigger] q.omni[i]) by {
                assert(q.omni[i] == r.omni[i]);
            }
        } else {
            lemma_put(r.omni, t, rules);
            assert(now == mid);
            assert forall|i: int|
                0 <= i < tables.len() && tables[i].sharded_by(rules) implies now.contains(
                #[trigger] tables[i],
            ) by {
                assert(rest[i] == tables[i]);
            }
            assert forall|i: int|
                0 <= i < tables.len() && !tables[i].sharded_by(rules) implies holds_key(
                q.omni,
                key_of(#[trigger] tables[i]),
            ) by {
                if i < rest.len() {
                    assert(rest[i] == tables[i]);
                    assert(holds_key(r.omni, key_of(rest[i])));
                }
            }
            assert forall|key: KeyView| holds_key(p.omni, key) implies #[trigger] holds_key(
                q.omni,
                key,
            ) by {
                assert(holds_key(r.omni, key));
            }
            assert forall|i: int| 0 <= i < q.omni.len() implies p.omni.contains(q.omni[i])
                || tables.contains(#[trigger] q.omni[i]) by {
                if q.omni[i] != t {
                    let k = r.omni.index_of(q.omni[i]);
                    assert(r.omni[k] == q.omni[i]);
                }
            }
        }
    }
}

/// Whether the tables of the first shards have all been taken in: those with a
/// sharding column by their own shard, the others by name.
spec fn taken_in(p: Progress, loads: Seq<Vec<Table>>, n: int, rules: ShardedTables) -> bool {
    &&& forall|m: int, i: int|
        #![trigger loads[m]@[i]]
        0 <= m < n && 0 <= i < loads[m]@.len() && loads[m]@[i]@.sharded_by(rules) ==> holds_table(
            tables_of(p.tables, m as usize),
            loads[m]@[i]@,
        )
    &&& forall|m: int, i: int|
        #![trigger loads[m]@[i]]
        0 <= m < n && 0 <= i < loads[m]@.len() && !loads[m]@[i]@.sharded_by(rules) ==> holds_key(
            p.omni,
            key_of(loads[m]@[i]@),
        )
}

/// Whether a table of a shard is one that the shard published, with a sharding column.
spec fn own_table(
    p: Progress,
    loads: Seq<Vec<Table>>,
    n: int,
    rules: ShardedTables,
    k: usize,
    i: int,
) -> bool {
    let t = tables_of(p.tables, k)[i];
    k < n && t.sharded_by(rules) && published_by(loads, k as int, t)
}

/// Whether nothing but tables of the first shards has been taken in.
spec fn taken_from(
    start: Map<usize, Seq<TableView>>,
    p: Progress,
    loads: Seq<Vec<Table>>,
    n: int,
    rules: ShardedTables,
) -> bool {
    &&& forall|k: usize, i: int|
        tables_of(start, k).len() <= i < tables_of(p.tables, k).len() ==> #[trigger] own_table(
            p,
            loads,
            n,
            rules,
            k,
            i,
        )
    &&& forall|i: int|
        0 <= i < p.omni.len() ==> published_by_some(loads, n, #[trigger] p.omni[i])
}

/// Whether a table is one that a shard published, but for its filter.
pub open spec fn published_by(loads: Seq<Vec<Table>>, m: int, t: TableView) -> bool {
    0 <= m < loads.len() && exists|i: int|
        0 <= i < loads[m]@.len() && is_same_table(t, (#[trigger] loads[m]@[i])@)
}

/// Whether a table is one that one of the first shards published.
pub open spec fn published_by_some(loads: Seq<Vec<Table>>, n: int, t: TableView) -> bool {
    exists|m: int| 0 <= m < n && #[trigger] published_by(loads, m, t)
}

/// What is left of the tables that were there before.
spec fn keeps_start(start: Map<usize, Seq<TableView>>, p: Progress) -> bool {
    forall|k: usize|
        #![trigger tables_of(p.tables, k)]
        tables_of(start, k).len() <= tables_of(p.tables, k).len() && forall|i: int|
            0 <= i < tables_of(start, k).len() ==> tables_of(p.tables, k)[i] == tables_of(
                start,
                k,
            )[i]
}

proof fn lemma_same_sharding(t: TableView, u: TableView, rules: ShardedTables)
    requires
        is_same_table(t, u),
    ensures
        t.sharded_by(rules) == u.sharded_by(rules),
        key_of(t) == key_of(u),
{
    assert(t.columns == u.columns);
    assert(t.table == u.table);
}

#[verifier::rlimit(60)]
proof fn lemma_loaded(
    start: Map<usize, Seq<TableView>>,
    hybrid: Seq<HybridNullTable>,
    rules: ShardedTables,
    loads: Seq<Vec<Table>>,
    n: nat,
)
    requires
        n <= loads.len() <= usize::MAX,
    ensures
        ({
            let (p, e) = loaded(start, hybrid, true, rules, loads, n);
            &&& in_order(p, rules)
            &&& keeps_start(start, p)
            &&& taken_from(start, p, loads, n as int, rules)
            &&& e is None ==> taken_in(p, loads, n as int, rules)
        }),
    decreases n,
{
    if n > 0 {
        let m = (n - 1) as nat;
        lemma_loaded(start, hybrid, rules, loads, m);
        let (p, e) = loaded(start, hybrid, true, rules, loads, m);
        assert((m as usize) as int == m);
        let shard = m as usize;
        let found = table_views(loads[m as int]@);
        lemma_all_annotated(hybrid, found);
        if e is None {
            if let Ok(tables) = all_annotated(hybrid, found) {
                lemma_split(p, shard, tables, rules);
                let q = split(p, shard, tables, rules);
                lemma_taken_in(p, q, tables, loads, m, rules);
                lemma_taken_from(start, p, q, tables, loads, m, rules);
                assert(keeps_start(start, q)) by {
                    assert forall|k: usize|
                        #![trigger tables_of(q.tables, k)]
                        tables_of(start, k).len() <= tables_of(q.tables, k).len() && forall|i: int|
                            0 <= i < tables_of(start, k).len() ==> tables_of(q.tables, k)[i]
                                == tables_of(start, k)[i] by {
                        assert(tables_of(start, k).len() <= tables_of(p.tables, k).len());
                    }
                }
            } else {
                lemma_taken_from_more(start, p, loads, m, rules);
            }
        } else {
            lemma_taken_from_more(start, p, loads, m, rules);
        }
    }
}

proof fn lemma_taken_from_more(
    start: Map<usize, Seq<TableView>>,
    p: Progress,
    loads: Seq<Vec<Table>>,
    m: nat,
    rules: ShardedTables,
)
    requires
        taken_from(start, p, loads, m as int, rules),
    ensures
        taken_from(start, p, loads, m as int + 1, rules),
{
    assert forall|k: usize, i: int|
        tables_of(start, k).len() <= i < tables_of(p.tables, k).len() implies #[trigger] own_table(
        p,
        loads,
        m as int + 1,
        rules,
        k,
        i,
    ) by {
        assert(own_table(p, loads, m as int, rules, k, i));
    }
    assert forall|i: int| 0 <= i < p.omni.len() implies published_by_some(
        loads,
        m as int + 1,
        #[trigger] p.omni[i],
    ) by {
        assert(published_by_some(loads, m as int, p.omni[i]));
        let k = choose|k: int| 0 <= k < m && #[trigger] published_by(loads, k, p.omni[i]);
        assert(published_by(loads, k, p.omni[i]));
    }
}

proof fn lemma_taken_in(
    p: Progress,
    q: Progress,
    tables: Seq<TableView>,
    loads: Seq<Vec<Table>>,
    m: nat,
    rules: ShardedTables,
)
    requires
        m < loads.len() <= usize::MAX,
        in_order(p, rules),
        q == split(p, m as usize, tables, rules),
        taken_in(p, loads, m as int, rules),
        tables.len() == loads[m as int]@.len(),
        forall|i: int|
            0 <= i < tables.len() ==> is_same_table(
                #[trigger] tables[i],
                loads[m as int]@[i]@,
            ),
    ensures
        taken_in(q, loads, m as int + 1, rules),
{
    lemma_split(p, m as usize, tables, rules);
    assert forall|k: int, i: int|
        #![trigger loads[k]@[i]]
        0 <= k < m + 1 && 0 <= i < loads[k]@.len() && loads[k]@[i]@.sharded_by(
            rules,
        ) implies holds_table(tables_of(q.tables, k as usize), loads[k]@[i]@) by {
        let t = loads[k]@[i]@;
        let was = tables_of(p.tables, k as usize);
        let now = tables_of(q.tables, k as usize);
        if k < m {
            assert(k as usize != m as usize);
            assert(now == was);
            assert(holds_table(was, t));
        } else {
            lemma_same_sharding(tables[i], t, rules);
            assert(now.contains(tables[i]));
            let j = now.index_of(tables[i]);
            assert(is_same_table(now[j], t));
        }
    }
    assert forall|k: int, i: int|
        #![trigger loads[k]@[i]]
        0 <= k < m + 1 && 0 <= i < loads[k]@.len() && !loads[k]@[i]@.sharded_by(
            rules,
        ) implies holds_key(q.omni, key_of(loads[k]@[i]@)) by {
        let t = loads[k]@[i]@;
        if k < m {
            assert(holds_key(p.omni, key_of(t)));
        } else {
            lemma_same_sharding(tables[i], t, rules);
            assert(holds_key(q.omni, key_of(tables[i])));
        }
    }
}

proof fn lemma_taken_from(
    start: Map<usize, Seq<TableView>>,
    p: Progress,
    q: Progress,
    tables: Seq<TableView>,
    loads: Seq<Vec<Table>>,
    m: nat,
    rules: ShardedTables,
)
    requires
        m < loads.len() <= usize::MAX,
        in_order(p, rules),
        keeps_start(start, p),
        q == split(p, m as usize, tables, rules),
        taken_from(start, p, loads, m as int, rules),
        tables.len() == loads[m as int]@.len(),
        forall|i: int|
            0 <= i < tables.len() ==> is_same_table(
                #[trigger] tables[i],
                loads[m as int]@[i]@,
            ),
    ensures
        taken_from(start, q, loads, m as int + 1, rules),
{
    lemma_split(p, m as usize, tables, rules);
    assert forall|x: TableView| tables.contains(x) implies #[trigger] published_by(
        loads,
        m as int,
        x,
    ) by {
        let i = tables.index_of(x);
        assert(is_same_table(tables[i], loads[m as int]@[i]@));
    }
    assert forall|k: usize, i: int|
        tables_of(start, k).len() <= i < tables_of(q.tables, k).len() implies #[trigger] own_table(
        q,
        loads,
        m as int + 1,
        rules,
        k,
        i,
    ) by {
        let was = tables_of(p.tables, k);
        let now = tables_of(q.tables, k);
        if k as int == m {
            if i < was.len() {
                assert(now[i] == was[i]);
                assert(own_table(p, loads, m as int, rules, k, i));
            } else {
                assert(tables.contains(now[i]));
            }
        } else {
            assert(k != m as usize);
            assert(now == was);
            assert(own_table(p, loads, m as int, rules, k, i));
        }
    }
    assert forall|i: int| 0 <= i < q.omni.len() implies published_by_some(
        loads,
        m as int + 1,
        #[trigger] q.omni[i],
    ) by {
        let t = q.omni[i];
        if p.omni.contains(t) {
            let j = p.omni.index_of(t);
            assert(published_by_some(loads, m as int, p.omni[j]));
            let k = choose|k: int| 0 <= k < m && #[trigger] published_by(loads, k, t);
            assert(published_by(loads, k, t));
        } else {
            assert(published_by(loads, m as int, t));
        }
    }
}

/// The tables of a copy: each shard has every table that it published and that has a
/// sharding column.
pub proof fn law_sharded_tables_stay_with_their_shard(
    p: &mut Publisher,
    loads: Vec<Vec<Table>>,
    rules: ShardedTables,
    out: Result<(), Error>,
    n: usize,
    i: int,
)
    requires
        call_ensures(Publisher::sync_tables, (p, true, loads, &rules), out),
        out is Ok,
        loads@.len() <= usize::MAX,
        n < loads@.len(),
        0 <= i < loads@[n as int]@.len(),
        loads@[n as int]@[i]@.sharded_by(rules),
    ensures
        final(p)@.tables.contains_key(n),
        holds_table(final(p)@.tables[n], loads@[n as int]@[i]@),
{
    let before = old(p)@;
    lemma_loaded(before.tables, before.hybrid_tables, rules, loads@, loads@.len());
    let progress = loaded(
        before.tables,
        before.hybrid_tables,
        true,
        rules,
        loads@,
        loads@.len(),
    ).0;
    let t = loads@[n as int]@[i]@;
    let own = tables_of(progress.tables, n);
    assert(holds_table(own, t));
    let k = choose|k: int| 0 <= k < own.len() && is_same_table(#[trigger] own[k], t);
    let all = final(p)@.tables[n];
    assert(all == own + dealt(progress.omni, n as nat, loads@.len()));
    assert(all[k] == own[k]);
}

/// The tables of a copy: a table without a sharding column is copied by exactly one
/// shard, however many published it.
pub proof fn law_omni_tables_go_to_one_shard(
    p: &mut Publisher,
    loads: Vec<Vec<Table>>,
    rules: ShardedTables,
    out: Result<(), Error>,
    n: int,
    i: int,
)
    requires
        call_ensures(Publisher::sync_tables, (p, true, loads, &rules), out),
        out is Ok,
        old(p)@.tables.dom() == Set::<usize>::empty(),
        0 <= n < loads@.len() <= usize::MAX,
        0 <= i < loads@[n]@.len(),
        !loads@[n]@[i]@.sharded_by(rules),
    ensures
        ({
            let t = loads@[n]@[i]@.table;
            exists|k: usize|
                #![trigger final(p)@.tables[k]]
                k < loads@.len() && holds_omni(final(p)@.tables[k], rules, t.schema, t.name)
                    && forall|other: usize|
                    final(p)@.tables.contains_key(other) && other != k ==> !holds_omni(
                        #[trigger] final(p)@.tables[other],
                        rules,
                        t.schema,
                        t.name,
                    )
        }),
{
    let before = old(p)@;
    let shards = loads@.len();
    lemma_loaded(before.tables, before.hybrid_tables, rules, loads@, shards);
    let progress = loaded(before.tables, before.hybrid_tables, true, rules, loads@, shards).0;
    let t = loads@[n]@[i]@;
    let omni = progress.omni;
    assert(holds_key(omni, key_of(t)));
    let j = choose|j: int| 0 <= j < omni.len() && key_of(#[trigger] omni[j]) == key_of(t);
    law_every_table_is_dealt(omni, shards, j);
    vstd::arithmetic::div_mod::lemma_mod_bound(j, shards as int);
    let k = ((j as nat) % shards) as usize;
    assert(k as nat == (j as nat) % shards);
    let list = final(p)@.tables[k];
    let share = dealt(omni, k as nat, shards);
    let own = tables_of(progress.tables, k);
    assert(list == own + share);
    let at = share.index_of(omni[j]);
    assert(list[own.len() + at] == omni[j]);
    assert(holds_omni(list, rules, t.table.schema, t.table.name));
    assert forall|other: usize|
        final(p)@.tables.contains_key(other) && other != k implies !holds_omni(
        #[trigger] final(p)@.tables[other],
        rules,
        t.table.schema,
        t.table.name,
    ) by {
        let theirs = final(p)@.tables[other];
        let kept = tables_of(progress.tables, other);
        assert(!before.tables.contains_key(other));
        if holds_omni(theirs, rules, t.table.schema, t.table.name) {
            let x = choose|x: int|
                0 <= x < theirs.len() && (#[trigger] theirs[x]).table.schema == t.table.schema
                    && theirs[x].table.name == t.table.name && !theirs[x].sharded_by(rules);
            if x < kept.len() {
                assert(theirs[x] == kept[x]);
                assert(own_table(progress, loads@, shards as int, rules, other, x));
            } else {
                assert(other < shards);
                let other_share = dealt(omni, other as nat, shards);
                assert(theirs[x] == other_share[x - kept.len()]);
                let y = lemma_dealt_from(omni, other as nat, shards, theirs[x]);
                assert(key_of(omni[y]) == key_of(t));
                if y < j {
                    assert(key_of(omni[y]) != key_of(omni[j]));
                }
                if j < y {
                    assert(key_of(omni[j]) != key_of(omni[y]));
                }
            }
        }
    }
}

/// The tables of a copy: a shard has nothing but tables that it published and that
/// have a sharding column, and its share of those that have none.
pub proof fn law_shards_copy_published_tables_only(
    p: &mut Publisher,
    loads: Vec<Vec<Table>>,
    rules: ShardedTables,
    out: Result<(), Error>,
    n: usize,
    i: int,
)
    requires
        call_ensures(Publisher::sync_tables, (p, true, loads, &rules), out),
        out is Ok,
        old(p)@.tables.dom() == Set::<usize>::empty(),
        loads@.len() <= usize::MAX,
        final(p)@.tables.contains_key(n),
        0 <= i < final(p)@.tables[n].len(),
    ensures
        n < loads@.len(),
        ({
            let t = final(p)@.tables[n][i];
            if t.sharded_by(rules) {
                published_by(loads@, n as int, t)
            } else {
                published_by_some(loads@, loads@.len() as int, t)
            }
        }),
{
    let before = old(p)@;
    let shards = loads@.len();
    lemma_loaded(before.tables, before.hybrid_tables, rules, loads@, shards);
    let progress = loaded(before.tables, before.hybrid_tables, true, rules, loads@, shards).0;
    let own = tables_of(progress.tables, n);
    assert(!before.tables.contains_key(n));
    if n >= shards {
        lemma_keys_below(before.tables, before.hybrid_tables, rules, loads@, shards, n);
    }
    let all = final(p)@.tables[n];
    let share = dealt(progress.omni, n as nat, shards);
    assert(all == own + share);
    if i < own.len() {
        assert(all[i] == own[i]);
        assert(own_table(progress, loads@, shards as int, rules, n, i));
    } else {
        assert(all[i] == share[i - own.len()]);
        let y = lemma_dealt_from(progress.omni, n as nat, shards, all[i]);
        assert(published_by_some(loads@, shards as int, progress.omni[y]));
        assert(!progress.omni[y].sharded_by(rules));
    }
}

proof fn lemma_keys_below(
    start: Map<usize, Seq<TableView>>,
    hybrid: Seq<HybridNullTable>,
    rules: ShardedTables,
    loads: Seq<Vec<Table>>,
    n: nat,
    k: usize,
)
    requires
        n <= loads.len() <= usize::MAX,
        loaded(start, hybrid, true, rules, loads, n).0.tables.contains_key(k),
        !start.contains_key(k),
    ensures
        k < n,
    decreases n,
{
    if n > 0 {
        let m = (n - 1) as nat;
        lemma_loaded(start, hybrid, rules, loads, m);
        let (p, e) = loaded(start, hybrid, true, rules, loads, m);
        assert((m as usize) as int == m);
        if p.tables.contains_key(k) {
            lemma_keys_below(start, hybrid, rules, loads, m, k);
        } else if e is None {
            if let Ok(tables) = all_annotated(hybrid, table_views(loads[m as int]@)) {
                lemma_split(p, m as usize, tables, rules);
            }
        }
    }
}

/// Whether the place of a table is the last one of its name in a list.
pub open spec fn is_last_of_name(list: Seq<TableView>, t: TableView, j: int) -> bool {
    &&& 0 <= j < list.len()
    &&& list[j].table.schema == t.table.schema
    &&& list[j].table.name == t.table.name
    &&& forall|k: int|
        j < k < list.len() ==> (#[trigger] list[k]).table.schema != t.table.schema
            || list[k].table.name != t.table.name
}

proof fn lemma_lsn_map(list: Seq<TableView>, t: TableView)
    ensures
        lsn_map(list).contains_key(key_of(t)) <==> exists|j: int| #[trigger]
            is_last_of_name(list, t, j),
        forall|j: int| #[trigger]
            is_last_of_name(list, t, j) ==> lsn_map(list)[key_of(t)] == list[j].lsn,
    decreases list.len(),
{
    if list.len() > 0 {
        let rest = list.drop_last();
        let last = list.len() - 1;
        lemma_lsn_map(rest, t);
        assert(list.last() == list[last]);
        assert(forall|j: int| 0 <= j < last ==> #[trigger] rest[j] == list[j]);
        if key_of(list[last]) == key_of(t) {
            assert(is_last_of_name(list, t, last));
            assert forall|j: int| #[trigger] is_last_of_name(list, t, j) implies j == last by {
                if j < last {
                    assert(list[last].table.schema != t.table.schema || list[last].table.name
                        != t.table.name);
                }
            }
        } else {
            assert forall|j: int|
                is_last_of_name(list, t, j) <==> #[trigger] is_last_of_name(rest, t, j) by {
                if is_last_of_name(rest, t, j) {
                    assert(list[j] == rest[j]);
                    assert forall|k: int| j < k < list.len() implies (
                    #[trigger] list[k]).table.schema != t.table.schema || list[k].table.name
                        != t.table.name by {
                        if k < last {
                            assert(rest[k] == list[k]);
                        }
                    }
                }
                if is_last_of_name(list, t, j) {
                    assert(j != last);
                    assert(rest[j] == list[j]);
                }
            }
            if exists|j: int| #[trigger] is_last_of_name(list, t, j) {
                let j = choose|j: int| #[trigger] is_last_of_name(list, t, j);
                assert(is_last_of_name(rest, t, j));
            }
            if exists|j: int| #[trigger] is_last_of_name(rest, t, j) {
                let j = choose|j: int| #[trigger] is_last_of_name(rest, t, j);
                assert(is_last_of_name(list, t, j));
            }
            assert forall|j: int| #[trigger] is_last_of_name(list, t, j) implies lsn_map(
                list,
            )[key_of(t)] == list[j].lsn by {
                assert(is_last_of_name(rest, t, j));
            }
        }
    }
}

/// The tables of a shard, where they are streamed.
spec fn streamed(
    start: Map<usize, Seq<TableView>>,
    hybrid: Seq<HybridNullTable>,
    loads: Seq<Vec<Table>>,
    k: usize,
) -> Seq<TableView> {
    let tables = match all_annotated(hybrid, table_views(loads[k as int]@)) {
        Ok(tables) => tables,
        Err(_) => Seq::empty(),
    };
    if start.contains_key(k) {
        merged(tables, lsn_map(start[k]))
    } else {
        tables
    }
}

proof fn lemma_streamed(
    start: Map<usize, Seq<TableView>>,
    hybrid: Seq<HybridNullTable>,
    rules: ShardedTables,
    loads: Seq<Vec<Table>>,
    n: nat,
)
    requires
        n <= loads.len() <= usize::MAX,
    ensures
        ({
            let (p, e) = loaded(start, hybrid, false, rules, loads, n);
            &&& p.omni == Seq::<TableView>::empty()
            &&& e is None ==> forall|k: usize|
                k < n ==> #[trigger] p.tables.contains_key(k) && p.tables[k] == streamed(
                    start,
                    hybrid,
                    loads,
                    k,
                ) && all_annotated(hybrid, table_views(loads[k as int]@)) is Ok
            &&& forall|k: usize|
                k >= n ==> #[trigger] p.tables.contains_key(k) == start.contains_key(k) && (
                start.contains_key(k) ==> p.tables[k] == start[k])
        }),
    decreases n,
{
    if n > 0 {
        lemma_streamed(start, hybrid, rules, loads, (n - 1) as nat);
        let (p, e) = loaded(start, hybrid, false, rules, loads, (n - 1) as nat);
        let last = (n - 1) as usize;
        assert(last as int == n - 1);
        assert(p.tables.contains_key(last) == start.contains_key(last));
        let (q, f) = loaded(start, hybrid, false, rules, loads, n);
        if f is None {
            assert forall|k: usize| k < n implies #[trigger] q.tables.contains_key(k)
                && q.tables[k] == streamed(start, hybrid, loads, k) && all_annotated(
                hybrid,
                table_views(loads[k as int]@),
            ) is Ok by {
                if k != last {
                    assert(p.tables.contains_key(k));
                }
            }
        }
        assert forall|k: usize| k >= n implies #[trigger] q.tables.contains_key(k)
            == start.contains_key(k) && (start.contains_key(k) ==> q.tables[k] == start[k]) by {
            assert(p.tables.contains_key(k) == start.contains_key(k));
        }
    }
}

/// The tables that a shard is known to have.
pub open spec fn known_tables(p: PublisherView, shard: usize) -> Seq<TableView> {
    if p.tables.contains_key(shard) {
        p.tables[shard]
    } else {
        Seq::empty()
    }
}

/// The tables of a stream: each shard has every table that it published, in order and
/// with its filter. A table that the shard knew already stays at the position it had
/// come to.
pub proof fn law_streams_have_every_table(
    p: &mut Publisher,
    loads: Vec<Vec<Table>>,
    rules: ShardedTables,
    out: Result<(), Error>,
    n: usize,
    i: int,
)
    requires
        call_ensures(Publisher::sync_tables, (p, false, loads, &rules), out),
        out is Ok,
        loads@.len() <= usize::MAX,
        n < loads@.len(),
        0 <= i < loads@[n as int]@.len(),
    ensures
        final(p)@.tables.contains_key(n),
        final(p)@.tables[n].len() == loads@[n as int]@.len(),
        ({
            let before = old(p)@;
            let t = final(p)@.tables[n][i];
            let u = loads@[n as int]@[i]@;
            let known = known_tables(before, n);
            &&& has_its_filter(before.hybrid_tables, u, (TableView { lsn: u.lsn, ..t }))
            &&& forall|j: int| #[trigger] is_last_of_name(known, u, j) ==> t.lsn == known[j].lsn
            &&& (forall|j: int| !(#[trigger] is_last_of_name(known, u, j))) ==> t.lsn == u.lsn
        }),
{
    let before = old(p)@;
    let shards = loads@.len();
    lemma_streamed(before.tables, before.hybrid_tables, rules, loads@, shards);
    let progress = loaded(before.tables, before.hybrid_tables, false, rules, loads@, shards).0;
    let found = table_views(loads@[n as int]@);
    lemma_all_annotated(before.hybrid_tables, found);
    assert(progress.tables.contains_key(n));
    let all = final(p)@.tables[n];
    assert(dealt(progress.omni, n as nat, shards) =~= Seq::<TableView>::empty());
    assert(all =~= streamed(before.tables, before.hybrid_tables, loads@, n));
    let u = loads@[n as int]@[i]@;
    assert(found[i] == u);
    if let Ok(tables) = all_annotated(before.hybrid_tables, found) {
        assert(has_its_filter(before.hybrid_tables, found[i], tables[i]));
        assert(key_of(tables[i]) == key_of(u));
        let t = all[i];
        assert(TableView { lsn: u.lsn, ..t } == tables[i]);
        if before.tables.contains_key(n) {
            lemma_lsn_map(before.tables[n], u);
        }
    }
}

/// Loading fails where the filter of some table names a column that the table does
/// not have, and only there.
pub proof fn law_missing_columns_are_failures(
    p: &mut Publisher,
    copies: bool,
    loads: Vec<Vec<Table>>,
    rules: ShardedTables,
    out: Result<(), Error>,
)
    requires
        call_ensures(Publisher::sync_tables, (p, copies, loads, &rules), out),
        loads@.len() <= usize::MAX,
    ensures
        out is Err <==> exists|n: int, i: int|
            0 <= n < loads@.len() && 0 <= i < loads@[n]@.len() && lacks_filter_column(
                old(p)@.hybrid_tables,
                (#[trigger] loads@[n]@[i])@,
            ),
        out matches Err(e) ==> e is BroadcastNullColumnMissing,
        final(p)@ == (PublisherView { tables: final(p)@.tables, ..old(p)@ }),
{
    lemma_load_fails(
        old(p)@.tables,
        old(p)@.hybrid_tables,
        copies,
        rules,
        loads@,
        loads@.len(),
    );
}

pub(crate) proof fn lemma_load_fails(
    start: Map<usize, Seq<TableView>>,
    hybrid: Seq<HybridNullTable>,
    copies: bool,
    rules: ShardedTables,
    loads: Seq<Vec<Table>>,
    n: nat,
)
    requires
        n <= loads.len(),
    ensures
        loaded(start, hybrid, copies, rules, loads, n).1 is Some <==> exists|m: int, i: int|
            0 <= m < n && 0 <= i < loads[m]@.len() && lacks_filter_column(
                hybrid,
                (#[trigger] loads[m]@[i])@,
            ),
    decreases n,
{
    if n > 0 {
        let last = n - 1;
        lemma_load_fails(start, hybrid, copies, rules, loads, last as nat);
        let before = loaded(start, hybrid, copies, rules, loads, last as nat).1;
        let found = table_views(loads[last]@);
        lemma_all_annotated(hybrid, found);
        if before is Some {
            let (m, i) = choose|m: int, i: int|
                0 <= m < last && 0 <= i < loads[m]@.len() && lacks_filter_column(
                    hybrid,
                    (#[trigger] loads[m]@[i])@,
                );
            assert(lacks_filter_column(hybrid, loads[m]@[i]@));
        } else if all_annotated(hybrid, found) is Err {
            let i = choose|i: int|
                0 <= i < found.len() && lacks_filter_column(hybrid, #[trigger] found[i]);
            assert(found[i] == loads[last]@[i]@);
            assert(lacks_filter_column(hybrid, loads[last]@[i]@));
        } else {
            assert forall|m: int, i: int|
                0 <= m < n && 0 <= i < loads[m]@.len() implies !lacks_filter_column(
                hybrid,
                (#[trigger] loads[m]@[i])@,
            ) by {
                if m == last {
                    assert(found[i] == loads[last]@[i]@);
                }
            }
        }
    }
}

/// A stream starts where the slot of its shard is, knows the tables of that shard, and
/// takes its slot away. It needs both.
pub proof fn law_streams_start_at_their_slot(
    p: &mut Publisher,
    shard: usize,
    sources: usize,
    dest: Arc<Cluster>,
    out: Result<StreamSubscriber, Error>,
)
    requires
        call_ensures(Publisher::open_stream, (p, shard, sources, &dest), out),
    ensures
        out is Ok <==> old(p)@.tables.contains_key(shard) && old(p)@.slots.contains_key(shard),
        out matches Ok(stream) ==> {
            &&& stream@.lsn == old(p)@.slots[shard]
            &&& stream@.committed_lsn == old(p)@.slots[shard]
            &&& stream@.key_move == old(p)@.key_move
            &&& stream@.partition.source == shard
            &&& stream@.partition.sources == sources
            &&& stream@.cluster == dest
            &&& stream@.connections == 0
            &&& !final(p)@.slots.contains_key(shard)
            &&& forall|k: KeyView| #[trigger]
                stream@.tables.contains_key(k) <==> exists|i: int|
                    0 <= i < old(p)@.tables[shard].len() && (
                    #[trigger] old(p)@.tables[shard][i]).table.schema == k.schema && old(
                        p,
                    )@.tables[shard][i].table.name == k.name
        },
        out is Err ==> final(p)@ == old(p)@,
        forall|other: usize|
            other != shard ==> #[trigger] final(p)@.slots.contains_key(other) == old(
                p,
            )@.slots.contains_key(other),
        final(p)@.tables == old(p)@.tables,
{
    if let Ok(stream) = out {
        let tables = choose|tables: Seq<Table>| #[trigger]
            table_views(tables) == old(p)@.tables[shard] && stream@
                == (super::stream::State {
                lsn: old(p)@.slots[shard],
                committed_lsn: old(p)@.slots[shard],
                lsn_changed: old(p)@.slots[shard] != 0,
                key_move: old(p)@.key_move,
                ..super::stream::initial(
                    dest,
                    tables,
                    super::routing::OmniOwnership { source: shard, sources },
                )
            });
        lemma_table_map_keys(tables);
        assert(old(p)@.tables[shard].len() == tables.len());
        assert forall|k: KeyView| #[trigger]
            stream@.tables.contains_key(k) <==> exists|i: int|
                0 <= i < old(p)@.tables[shard].len() && (
                #[trigger] old(p)@.tables[shard][i]).table.schema == k.schema && old(
                    p,
                )@.tables[shard][i].table.name == k.name by {
            if stream@.tables.contains_key(k) {
                let i = choose|i: int|
                    0 <= i < tables.len() && (#[trigger] tables[i]).table.schema@ == k.schema
                        && tables[i].table.name@ == k.name;
                assert(old(p)@.tables[shard][i] == tables[i]@);
            }
            if exists|i: int|
                0 <= i < old(p)@.tables[shard].len() && (
                #[trigger] old(p)@.tables[shard][i]).table.schema == k.schema && old(
                    p,
                )@.tables[shard][i].table.name == k.name {
                let i = choose|i: int|
                    0 <= i < old(p)@.tables[shard].len() && (
                    #[trigger] old(p)@.tables[shard][i]).table.schema == k.schema && old(
                        p,
                    )@.tables[shard][i].table.name == k.name;
                assert(old(p)@.tables[shard][i] == tables[i]@);
                assert(tables[i].table.schema@ == k.schema);
            }
        }
    }
}

proof fn lemma_table_map_keys(tables: Seq<Table>)
    ensures
        forall|k: KeyView| #[trigger]
            super::stream::table_map(tables).contains_key(k) <==> exists|i: int|
                0 <= i < tables.len() && (#[trigger] tables[i]).table.schema@ == k.schema
                    && tables[i].table.name@ == k.name,
    decreases tables.len(),
{
    if tables.len() > 0 {
        let rest = tables.drop_last();
        let last = tables.len() - 1;
        lemma_table_map_keys(rest);
        assert(tables.last() == tables[last]);
        assert forall|k: KeyView| #[trigger]
            super::stream::table_map(tables).contains_key(k) <==> exists|i: int|
                0 <= i < tables.len() && (#[trigger] tables[i]).table.schema@ == k.schema
                    && tables[i].table.name@ == k.name by {
            let own = KeyView {
                schema: tables[last].table.schema@,
                name: tables[last].table.name@,
            };
            if super::stream::table_map(rest).contains_key(k) {
                let i = choose|i: int|
                    0 <= i < rest.len() && (#[trigger] rest[i]).table.schema@ == k.schema
                        && rest[i].table.name@ == k.name;
                assert(tables[i] == rest[i]);
                assert(tables[i].table.schema@ == k.schema);
            } else if k == own {
                assert(tables[last].table.schema@ == k.schema);
            } else if exists|i: int|
                0 <= i < tables.len() && (#[trigger] tables[i]).table.schema@ == k.schema
                    && tables[i].table.name@ == k.name {
                let i = choose|i: int|
                    0 <= i < tables.len() && (#[trigger] tables[i]).table.schema@ == k.schema
                        && tables[i].table.name@ == k.name;
                if i < last {
                    assert(rest[i] == tables[i]);
                }
            }
        }
    }
}

proof fn lemma_failed_at(
    start: Map<usize, Seq<TableView>>,
    hybrid: Seq<HybridNullTable>,
    copies: bool,
    rules: ShardedTables,
    loads: Seq<Vec<Table>>,
    n: nat,
) -> (m: nat)
    requires
        n <= loads.len(),
        loaded(start, hybrid, copies, rules, loads, n).1 is Some,
    ensures
        m < n,
        loaded(start, hybrid, copies, rules, loads, m).1 is None,
        loaded(start, hybrid, copies, rules, loads, n).0 == loaded(
            start,
            hybrid,
            copies,
            rules,
            loads,
            m,
        ).0,
        exists|i: int|
            0 <= i < loads[m as int]@.len() && lacks_filter_column(
                hybrid,
                (#[trigger] loads[m as int]@[i])@,
            ),
    decreases n,
{
    let last = (n - 1) as nat;
    if loaded(start, hybrid, copies, rules, loads, last).1 is Some {
        lemma_failed_at(start, hybrid, copies, rules, loads, last)
    } else {
        let found = table_views(loads[last as int]@);
        lemma_all_annotated(hybrid, found);
        let i = choose|i: int|
            0 <= i < found.len() && lacks_filter_column(hybrid, #[trigger] found[i]);
        assert(found[i] == loads[last as int]@[i]@);
        last
    }
}

/// Where loading fails, the tables of the shards before have been taken in: for a copy
/// those with a sharding column, for a stream all of them.
pub proof fn law_failed_loads_keep_what_came_before(
    p: &mut Publisher,
    copies: bool,
    loads: Vec<Vec<Table>>,
    rules: ShardedTables,
    out: Result<(), Error>,
    n: usize,
    i: int,
)
    requires
        call_ensures(Publisher::sync_tables, (p, copies, loads, &rules), out),
        out is Err,
        loads@.len() <= usize::MAX,
        n < loads@.len(),
        0 <= i < loads@[n as int]@.len(),
        forall|k: int, j: int|
            0 <= k <= n && 0 <= j < loads@[k]@.len() ==> !lacks_filter_column(
                old(p)@.hybrid_tables,
                (#[trigger] loads@[k]@[j])@,
            ),
    ensures
        copies && loads@[n as int]@[i]@.sharded_by(rules) ==> final(p)@.tables.contains_key(n)
            && holds_table(final(p)@.tables[n], loads@[n as int]@[i]@),
        !copies ==> final(p)@.tables.contains_key(n) && final(p)@.tables[n].len()
            == loads@[n as int]@.len() && has_its_filter(
            old(p)@.hybrid_tables,
            loads@[n as int]@[i]@,
            (TableView { lsn: loads@[n as int]@[i]@.lsn, ..final(p)@.tables[n][i] }),
        ),
{
    let before = old(p)@;
    let start = before.tables;
    let hybrid = before.hybrid_tables;
    let m = lemma_failed_at(start, hybrid, copies, rules, loads@, loads@.len());
    let j = choose|j: int|
        0 <= j < loads@[m as int]@.len() && lacks_filter_column(
            hybrid,
            (#[trigger] loads@[m as int]@[j])@,
        );
    assert(lacks_filter_column(hybrid, loads@[m as int]@[j]@));
    assert(n < m);
    let progress = loaded(start, hybrid, copies, rules, loads@, m).0;
    let t = loads@[n as int]@[i]@;
    if copies {
        lemma_loaded(start, hybrid, rules, loads@, m);
        if t.sharded_by(rules) {
            assert(holds_table(tables_of(progress.tables, n), loads@[n as int]@[i]@));
        }
    } else {
        lemma_streamed(start, hybrid, rules, loads@, m);
        assert(progress.tables.contains_key(n));
        let found = table_views(loads@[n as int]@);
        lemma_all_annotated(hybrid, found);
        assert(found[i] == t);
        if let Ok(tables) = all_annotated(hybrid, found) {
            assert(has_its_filter(hybrid, found[i], tables[i]));
            assert(TableView { lsn: t.lsn, ..final(p)@.tables[n][i] } == tables[i]);
        }
    }
}

} // verus!
