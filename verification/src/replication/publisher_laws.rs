//! What holds of how tables are split between shards.

use vstd::arithmetic::div_mod::{
    lemma_fundamental_div_mod, lemma_fundamental_div_mod_converse, lemma_mod_bound,
};
use vstd::prelude::*;

use super::publisher::{
    after_sync, dealt, distributed, key_of, merged, place_of, put, tables_of, without_slots,
    PublisherView,
};
use super::table::{KeyView, Lsn, Table, TableView};
use crate::sharded_tables::ShardedTables;

verus! {

/// Every table that is dealt out goes to a shard.
pub proof fn law_every_table_is_dealt(list: Seq<TableView>, shards: nat, i: int)
    requires
        0 <= i < list.len(),
        shards > 0,
    ensures
        dealt(list, (i as nat) % shards, shards).contains(list[i]),
    decreases list.len(),
{
    let shard = (i as nat) % shards;
    let all = dealt(list, shard, shards);
    let before = dealt(list.drop_last(), shard, shards);
    if i == list.len() - 1 {
        assert(all == before.push(list.last()));
        assert(all[before.len() as int] == list[i]);
    } else {
        law_every_table_is_dealt(list.drop_last(), shards, i);
        let k = before.index_of(list[i]);
        assert(all[k] == list[i]);
    }
}

pub(crate) proof fn lemma_dealt_from(list: Seq<TableView>, shard: nat, shards: nat, t: TableView) -> (i: int)
    requires
        dealt(list, shard, shards).contains(t),
    ensures
        0 <= i < list.len(),
        list[i] == t,
        (i as nat) % shards == shard,
    decreases list.len(),
{
    let all = dealt(list, shard, shards);
    let k = all.index_of(t);
    if list.len() == 0 {
        assert(false);
        0
    } else {
        let before = dealt(list.drop_last(), shard, shards);
        if k < before.len() {
            assert(before[k] == t);
            assert(before.contains(t));
            lemma_dealt_from(list.drop_last(), shard, shards, t)
        } else {
            list.len() - 1
        }
    }
}

/// No table is dealt to two shards, so that no row is copied twice.
pub proof fn law_no_table_is_dealt_twice(
    list: Seq<TableView>,
    a: nat,
    b: nat,
    shards: nat,
    t: TableView,
)
    requires
        forall|i: int, j: int|
            0 <= i < j < list.len() ==> key_of(#[trigger] list[i]) != key_of(#[trigger] list[j]),
        dealt(list, a, shards).contains(t),
        dealt(list, b, shards).contains(t),
    ensures
        a == b,
{
    let i = lemma_dealt_from(list, a, shards, t);
    let j = lemma_dealt_from(list, b, shards, t);
    if i < j {
        assert(key_of(list[i]) != key_of(list[j]));
    } else if j < i {
        assert(key_of(list[j]) != key_of(list[i]));
    }
}

/// The shard whose turn it is gets the table, and the count is that of the turns.
proof fn lemma_dealt_len(list: Seq<TableView>, shard: nat, shards: nat)
    requires
        shard < shards,
    ensures
        dealt(list, shard, shards).len() == (list.len() + shards - 1 - shard) / (shards as int),
    decreases list.len(),
{
    let n = shards as int;
    let k = shard as int;
    if list.len() == 0 {
        vstd::arithmetic::div_mod::lemma_basic_div(n - 1 - k, n);
    } else {
        let l = list.len() - 1;
        lemma_dealt_len(list.drop_last(), shard, shards);
        let m = l + n - 1 - k;
        lemma_fundamental_div_mod(m, n);
        lemma_mod_bound(m, n);
        lemma_fundamental_div_mod(l, n);
        lemma_mod_bound(l, n);
        let q = l / n;
        let r = l % n;
        assert(l == n * q + r);
        if r == k {
            assert(m == n * q + (n - 1));
            lemma_fundamental_div_mod_converse(m, n, q, n - 1);
            assert(m + 1 == n * (q + 1)) by (nonlinear_arith)
                requires
                    m == n * q + (n - 1),
            ;
            lemma_fundamental_div_mod_converse(m + 1, n, q + 1, 0);
        } else if r > k {
            assert(m == n * (q + 1) + (r - k - 1)) by (nonlinear_arith)
                requires
                    m == l + n - 1 - k,
                    l == n * q + r,
            ;
            lemma_fundamental_div_mod_converse(m, n, q + 1, r - k - 1);
            lemma_fundamental_div_mod_converse(m + 1, n, q + 1, r - k);
        } else {
            assert(m == n * q + (r + n - 1 - k));
            assert(r + n - k <= n - 1);
            assert(m + 1 == q * n + (r + n - k)) by (nonlinear_arith)
                requires
                    m == n * q + (r + n - 1 - k),
            ;
            lemma_fundamental_div_mod_converse(m, n, q, r + n - 1 - k);
            lemma_fundamental_div_mod_converse(m + 1, n, q, r + n - k);
        }
    }
}

/// The tables on every shard are split evenly: no shard gets more than one table
/// more than another.
pub proof fn law_tables_are_dealt_evenly(list: Seq<TableView>, a: nat, b: nat, shards: nat)
    requires
        a < shards,
        b < shards,
    ensures
        dealt(list, a, shards).len() <= dealt(list, b, shards).len() + 1,
{
    lemma_dealt_len(list, a, shards);
    lemma_dealt_len(list, b, shards);
    let n = shards as int;
    let x = list.len() + n - 1 - a;
    let y = list.len() + n - 1 - b;
    assert(x <= y + n);
    vstd::arithmetic::div_mod::lemma_div_is_ordered(x, y + n, n);
    vstd::arithmetic::div_mod::lemma_div_plus_one(y, n);
    assert(n + y == y + n);
}

/// Every shard has an entry once the tables have been dealt out.
pub proof fn law_every_shard_has_an_entry(
    tables: Map<usize, Seq<TableView>>,
    omni: Seq<TableView>,
    shards: nat,
    shard: usize,
)
    requires
        shard < shards,
    ensures
        distributed(tables, omni, shards).contains_key(shard),
        forall|i: int|
            0 <= i < tables_of(tables, shard).len() ==> distributed(tables, omni, shards)[shard][i]
                == tables_of(tables, shard)[i],
{
}

/// Putting a table into a list keeps its names apart.
pub proof fn law_put_keeps_names_apart(list: Seq<TableView>, t: TableView)
    requires
        forall|i: int, j: int|
            0 <= i < j < list.len() ==> key_of(#[trigger] list[i]) != key_of(#[trigger] list[j]),
    ensures
        forall|i: int, j: int|
            0 <= i < j < put(list, t).len() ==> key_of(#[trigger] put(list, t)[i]) != key_of(
                #[trigger] put(list, t)[j],
            ),
{
    lemma_place_of(list, key_of(t));
    let p = place_of(list, key_of(t));
    let out = put(list, t);
    assert forall|i: int, j: int| 0 <= i < j < out.len() implies key_of(#[trigger] out[i])
        != key_of(#[trigger] out[j]) by {
        if p >= 0 {
            assert(key_of(list[i]) != key_of(list[j]));
        } else if j < list.len() {
            assert(key_of(list[i]) != key_of(list[j]));
        } else {
            assert(key_of(list[i]) != key_of(t));
        }
    }
}

pub(crate) proof fn lemma_place_of(list: Seq<TableView>, key: KeyView)
    ensures
        -1 <= place_of(list, key) < list.len(),
        place_of(list, key) >= 0 ==> key_of(list[place_of(list, key)]) == key,
        place_of(list, key) < 0 ==> forall|i: int|
            0 <= i < list.len() ==> key_of(#[trigger] list[i]) != key,
    decreases list.len(),
{
    if list.len() > 0 && key_of(list.last()) != key {
        lemma_place_of(list.drop_last(), key);
        if place_of(list, key) < 0 {
            assert forall|i: int| 0 <= i < list.len() implies key_of(#[trigger] list[i]) != key by {
                if i < list.len() - 1 {
                    assert(key_of(list.drop_last()[i]) != key);
                }
            }
        }
    }
}

/// Only the position of a table changes when it is put at its known position.
pub proof fn law_merging_changes_positions_only(
    tables: Seq<TableView>,
    known: Map<KeyView, Lsn>,
    i: int,
)
    requires
        0 <= i < tables.len(),
    ensures
        merged(tables, known).len() == tables.len(),
        merged(tables, known)[i] == (TableView { lsn: merged(tables, known)[i].lsn, ..tables[i] }),
        !known.contains_key(key_of(tables[i])) ==> merged(tables, known)[i] == tables[i],
{
}

/// Slots are given up once: behind that there is none left, and giving them up again
/// changes nothing.
pub proof fn law_slots_are_given_up_once(p: PublisherView, shard: usize)
    ensures
        !without_slots(p).slots.contains_key(shard),
        without_slots(without_slots(p)) == without_slots(p),
{
}

/// Loading tables creates no slot, whether or not they can be replicated: a
/// publication that is refused leaves none behind.
pub proof fn law_loading_creates_no_slot(
    p: PublisherView,
    copies: bool,
    rules: ShardedTables,
    loads: Seq<Vec<Table>>,
)
    ensures
        after_sync(p, copies, rules, loads).0.slots == p.slots,
{
}

} // verus!
