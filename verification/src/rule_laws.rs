//! Which rows the configured rules place, and what the translations of sharding keys
//! remember.

use vstd::prelude::*;

use crate::cluster::{Cluster, Role, Shard};
use crate::replication::error::Error;
use crate::replication::table::{Table, TableView};
use crate::schema::ast::{Column, ColumnView};
use crate::sharded_tables::{
    all_agree, mapping_view, same_scheme, sticky_map, CommonMapping, LookupCache, LookupKeyView,
    LookupStore, LookupTable, OmnishardedTable, ShardedTable, ShardedTables,
};

verus! {

/// Whether a rule places the rows of a table by a column: it names the column, and the
/// table and the schema that the rows go to, as far as it names them.
pub open spec fn places_by(rule: ShardedTable, t: TableView, column: Seq<char>) -> bool {
    &&& rule.column@ == column
    &&& rule.name matches Some(name) ==> name@ == (if t.table.parent_name.len() == 0 {
        t.table.name
    } else {
        t.table.parent_name
    })
    &&& rule.schema matches Some(schema) ==> schema@ == (if t.table.parent_schema.len() == 0 {
        t.table.schema
    } else {
        t.table.parent_schema
    })
}

/// A table is sharded where some rule places its rows by one of its columns, and only
/// there.
pub proof fn law_tables_are_sharded_by_the_rules(t: Table, rules: ShardedTables, b: bool)
    requires
        call_ensures(Table::is_sharded, (&t, &rules), b),
    ensures
        b == t@.sharded_by(rules),
        b <==> exists|i: int, k: int|
            #![trigger t@.columns[i], rules.rules()[k]]
            0 <= i < t@.columns.len() && 0 <= k < rules.rules().len() && places_by(
                rules.rules()[k],
                t@,
                t@.columns[i].name@,
            ),
{
    law_sharding_is_by_the_rules(t@, rules);
}

/// The same of a table as it is known.
pub proof fn law_sharding_is_by_the_rules(t: TableView, rules: ShardedTables)
    ensures
        t.sharded_by(rules) <==> exists|i: int, k: int|
            #![trigger t.columns[i], rules.rules()[k]]
            0 <= i < t.columns.len() && 0 <= k < rules.rules().len() && places_by(
                rules.rules()[k],
                t,
                t.columns[i].name@,
            ),
{
    if t.sharded_by(rules) {
        let i = choose|i: int|
            0 <= i < t.columns.len() && rules.shards_column(
                crate::sharded_tables::destination_column(
                    t.table,
                    (#[trigger] t.columns[i]).name@,
                ),
            );
        let column = crate::sharded_tables::destination_column(t.table, t.columns[i].name@);
        let k = choose|k: int|
            0 <= k < rules.rules().len() && (#[trigger] rules.rules()[k]).covers(column);
        assert(places_by(rules.rules()[k], t, t.columns[i].name@));
    }
    if exists|i: int, k: int|
        #![trigger t.columns[i], rules.rules()[k]]
        0 <= i < t.columns.len() && 0 <= k < rules.rules().len() && places_by(
            rules.rules()[k],
            t,
            t.columns[i].name@,
        ) {
        let (i, k) = choose|i: int, k: int|
            #![trigger t.columns[i], rules.rules()[k]]
            0 <= i < t.columns.len() && 0 <= k < rules.rules().len() && places_by(
                rules.rules()[k],
                t,
                t.columns[i].name@,
            );
        let column = crate::sharded_tables::destination_column(t.table, t.columns[i].name@);
        assert(rules.rules()[k].covers(column));
        assert(rules.shards_column(column));
    }
}

/// Whether a rule is meant for a column: the column belongs to a table, which the rule
/// names if it names one, and so for the schema where both name it.
pub open spec fn is_rule_for(rule: ShardedTable, column: ColumnView) -> bool {
    &&& column.table is Some
    &&& column.name == rule.column@
    &&& rule.name matches Some(name) ==> name@ == column.table->0
    &&& rule.schema is Some && column.schema is Some ==> rule.schema->0@ == column.schema->0
}

/// The rule for a column is the first one that is meant for it.
pub proof fn law_the_first_rule_counts(
    rules: ShardedTables,
    column: Column,
    out: Option<&ShardedTable>,
    i: int,
)
    requires
        call_ensures(ShardedTables::get_table, (&rules, &column), out),
        0 <= i < rules.rules().len(),
    ensures
        out is None ==> !is_rule_for(rules.rules()[i], column@),
        out matches Some(rule) ==> is_rule_for(*rule, column@),
        out is Some && is_rule_for(rules.rules()[i], column@) && (forall|j: int|
            0 <= j < i ==> !is_rule_for(#[trigger] rules.rules()[j], column@)) ==> *(out->0)
            == rules.rules()[i],
{
    let args = (&rules, &column);
    assert(args.0.rules() == rules.rules());
    assert(args.1@ == column@);
    if out is None {
        assert(!rules.shards_column(column@));
        assert(!rules.rules()[i].covers(column@));
    } else {
        let table = *(out->0);
        let k = choose|k: int|
            0 <= k < rules.rules().len() && #[trigger] rules.rules()[k] == table && table.covers(
                column@,
            ) && forall|j: int| 0 <= j < k ==> !(#[trigger] rules.rules()[j]).covers(column@);
        if is_rule_for(rules.rules()[i], column@) && (forall|j: int|
            0 <= j < i ==> !is_rule_for(#[trigger] rules.rules()[j], column@)) {
            assert(rules.rules()[i].covers(column@));
            if k < i {
                assert(!is_rule_for(rules.rules()[k], column@));
            }
            if i < k {
                assert(!rules.rules()[i].covers(column@));
            }
        }
    }
}

/// Whether two rules place a key on the same shard.
pub open spec fn place_alike(a: ShardedTable, b: ShardedTable) -> bool {
    &&& a.data_type == b.data_type
    &&& mapping_view(a.mapping) == mapping_view(b.mapping)
    &&& a.lookup_result == b.lookup_result
    &&& a.lookup_query is Some <==> b.lookup_query is Some
    &&& a.lookup_query is Some ==> a.lookup_query->0@ == b.lookup_query->0@
}

/// There is a common mapping where there are rules and any two of them place keys
/// alike, and only there; it is that of the first rule.
pub proof fn law_common_mappings_are_shared_by_all(
    rules: ShardedTables,
    out: Option<CommonMapping<'static>>,
)
    requires
        call_ensures(ShardedTables::common_mapping, (&rules,), out),
    ensures
        out is Some <==> rules.rules().len() > 0 && forall|i: int, j: int|
            0 <= i < rules.rules().len() && 0 <= j < rules.rules().len() ==> place_alike(
                #[trigger] rules.rules()[i],
                #[trigger] rules.rules()[j],
            ),
        out matches Some(common) ==> {
            let first = rules.rules()[0];
            &&& common.data_type == first.data_type
            &&& common.mapping is Some <==> first.mapping is Some
            &&& common.lookup is Some <==> first.lookup_query is Some
            &&& common.lookup is Some ==> *common.lookup->0.query == first.lookup_query->0
                && common.lookup->0.result == first.lookup_result
            &&& common.mapping is Some ==> *common.mapping->0 == first.mapping->0
        },
{
    let list = rules.rules();
    if all_agree(list) {
        assert forall|i: int, j: int|
            0 <= i < list.len() && 0 <= j < list.len() implies place_alike(
            #[trigger] list[i],
            #[trigger] list[j],
        ) by {
            assert(same_scheme(list[i], list[0]));
            assert(same_scheme(list[j], list[0]));
        }
    } else if list.len() > 0 {
        let i = choose|i: int|
            0 <= i < list.len() && !same_scheme(#[trigger] list[i], list[0]);
        assert(!same_scheme(list[i], list[0]));
        assert(!place_alike(list[i], list[0]));
    }
}

/// A translation that was remembered is found again, under its cache, table and value
/// and nowhere else; all others are as they were.
pub proof fn law_translations_are_remembered(
    cache: LookupCache,
    store: &mut LookupStore,
    table: LookupTable,
    value: String,
    translation: String,
    out: (),
    k: LookupKeyView,
)
    requires
        call_ensures(LookupCache::insert, (&cache, store, table, value, translation), out),
    ensures
        ({
            let own = k.0 == cache.number() && k.1 == table@ && k.2 == value@;
            let before = old(store)@.translations;
            let after = final(store)@.translations;
            &&& own ==> after.contains_key(k) && after[k] == translation
            &&& !own ==> after.contains_key(k) == before.contains_key(k)
            &&& !own && before.contains_key(k) ==> after[k] == before[k]
        }),
        final(store)@.caches == old(store)@.caches,
{
}

/// A translation that was given up is not found again; all others are as they were.
pub proof fn law_translations_are_given_up(
    cache: LookupCache,
    store: &mut LookupStore,
    table: ShardedTable,
    value: &'static str,
    out: (),
    k: LookupKeyView,
)
    requires
        call_ensures(LookupCache::invalidate_for_table, (&cache, store, &table, value), out),
    ensures
        ({
            let own = k.0 == cache.number() && k.1.column == table.column@ && k.1.name == (
            match table.name {
                Some(name) => Some(name@),
                None => None,
            }) && k.1.schema == (match table.schema {
                Some(schema) => Some(schema@),
                None => None,
            }) && k.2 == value@;
            let before = old(store)@.translations;
            let after = final(store)@.translations;
            &&& own ==> !after.contains_key(k)
            &&& !own ==> after.contains_key(k) == before.contains_key(k)
            &&& !own && before.contains_key(k) ==> after[k] == before[k]
        }),
{
}

/// Where keys are invalidated, their translations are given up for every rule that
/// looks keys up, and nothing else is.
pub proof fn law_keys_are_invalidated_for_every_lookup(
    rules: ShardedTables,
    store: &mut LookupStore,
    keys: Vec<String>,
    out: (),
    i: int,
    j: int,
    k: LookupKeyView,
)
    requires
        call_ensures(ShardedTables::invalidate_lookup_keys, (&rules, store, &keys), out),
    ensures
        0 <= i < rules.rules().len() && rules.rules()[i].lookup_query is Some && 0 <= j
            < keys@.len() ==> !final(store)@.translations.contains_key(
            (rules.cache().number(), rules.rules()[i].lookup_key(), keys@[j]@),
        ),
        k.0 != rules.cache().number() || (forall|n: int|
            0 <= n < keys@.len() ==> (#[trigger] keys@[n])@ != k.2) ==> final(
            store)@.translations.contains_key(k) == old(store)@.translations.contains_key(k),
        final(store)@.translations.contains_key(k) ==> old(store)@.translations.contains_key(k)
            && final(store)@.translations[k] == old(store)@.translations[k],
{
    let args = (&rules, store, &keys);
    assert(args.0.rules() == rules.rules());
    assert(args.0.cache() == rules.cache());
    assert(args.2@ == keys@);
    if 0 <= i < rules.rules().len() && rules.rules()[i].lookup_query is Some && 0 <= j
        < keys@.len() {
        let e = (rules.rules()[i].lookup_key(), keys@[j]@);
        assert(rules.rules()[i] == rules.rules()[i] && keys@[j] == keys@[j]);
        assert(ShardedTables::dropped(rules.rules(), keys@, e));
        let own = (rules.cache().number(), e.0, e.1);
        assert(!final(store)@.translations.contains_key(own));
    }
    assert(final(store)@.translations.contains_key(k) ==> old(store)@.translations.contains_key(k));
    if k.0 == rules.cache().number() && ShardedTables::dropped(
        rules.rules(),
        keys@,
        (k.1, k.2),
    ) {
        let (a, b) = choose|a: int, b: int|
            #![trigger rules.rules()[a], keys@[b]]
            0 <= a < rules.rules().len() && 0 <= b < keys@.len()
                && rules.rules()[a].lookup_query is Some && (k.1, k.2) == (
            rules.rules()[a].lookup_key(), keys@[b]@);
        assert(keys@[b]@ == k.2);
    }
}

/// How a table on every shard is routed is what its last entry says.
pub proof fn law_the_last_entry_counts(tables: Seq<OmnishardedTable>, i: int)
    requires
        0 <= i < tables.len(),
    ensures
        sticky_map(tables).contains_key(tables[i].name@),
        (forall|j: int|
            i < j < tables.len() ==> (#[trigger] tables[j]).name@ != tables[i].name@)
            ==> sticky_map(tables)[tables[i].name@] == tables[i].sticky_routing,
    decreases tables.len(),
{
    let rest = tables.drop_last();
    if i < rest.len() {
        law_the_last_entry_counts(rest, i);
        assert(rest[i] == tables[i]);
        if forall|j: int|
            i < j < tables.len() ==> (#[trigger] tables[j]).name@ != tables[i].name@ {
            assert forall|j: int| i < j < rest.len() implies (#[trigger] rest[j]).name@
                != rest[i].name@ by {
                assert(rest[j] == tables[j]);
            }
            assert(tables[tables.len() - 1].name@ != tables[i].name@);
        }
    }
}

/// The primary of a shard is the first database that says it is; there is none where
/// none does.
pub proof fn law_primaries_are_found(shard: Shard, out: Option<usize>, i: int)
    requires
        call_ensures(Shard::primary, (&shard,), out),
        0 <= i < shard.pools@.len(),
    ensures
        out is None ==> shard.pools@[i].role != Role::Primary,
        out matches Some(k) ==> k < shard.pools@.len() && shard.pools@[k as int].role
            == Role::Primary && (i < k ==> shard.pools@[i].role != Role::Primary),
{
    if out is None && shard.pools@[i].role == Role::Primary {
        lemma_first_primary(shard, i);
    }
}

proof fn lemma_first_primary(shard: Shard, i: int)
    requires
        0 <= i < shard.pools@.len(),
        shard.pools@[i].role == Role::Primary,
    ensures
        shard.has_primary(),
    decreases i,
{
    if !crate::cluster::first_primary(shard, i) {
        let j = choose|j: int| 0 <= j < i && (#[trigger] shard.pools@[j]).role == Role::Primary;
        lemma_first_primary(shard, j);
    }
}

/// A cluster seen through one of its shards has that shard alone, and is otherwise
/// the same; a shard that is not there can't be seen.
pub proof fn law_one_shard_is_seen(cluster: Cluster, shard: usize, out: Result<Cluster, Error>)
    requires
        call_ensures(Cluster::shard_view, (&cluster, shard), out),
    ensures
        out is Ok <==> shard < cluster.shards@.len(),
        out matches Ok(view) ==> view.shards@.len() == 1 && view.shards@[0]
            == cluster.shards@[shard as int] && view.database == cluster.database && view.name
            == cluster.name && view.sharded_tables == cluster.sharded_tables
            && view.two_pc_enabled == cluster.two_pc_enabled,
{
}

} // verus!
