//! What holds of a rewritten schema whatever the dump holds.

use vstd::prelude::*;

use super::ast::{
    integer_type, last_type_name, text_or_empty, AlterCmd, ColumnDef, ColumnView, CreateStmt, Node,
    ObjectType, RawStmt, TableElt, TableNameView,
};
use super::columns::{
    converted_keys, dump_foreign_keys, dump_primary_keys, integer_foreign_keys,
    integer_primary_keys, last_of,
};
use super::partitions::{
    becomes_bigint, column_in, dump_parents, dump_partitioned, dump_widths, elt_width,
    stmt_partitioned, stmt_widths,
};
use super::pg_dump::{
    cmd_statements, created_table, elt_becomes_bigint, node_statements, StatementView, SyncState,
};

verus! {

/// A command of an `ALTER TABLE` is run before the data or after it, never in
/// both phases, and never when traffic moves over.
pub proof fn law_commands_run_in_one_phase(objtype: ObjectType, cmd: AlterCmd, sql: Seq<char>)
    ensures
        cmd_statements(objtype, cmd, sql, SyncState::PreData).len() == 0 || cmd_statements(
            objtype,
            cmd,
            sql,
            SyncState::PostData,
        ).len() == 0,
        cmd_statements(objtype, cmd, sql, SyncState::Cutover).len() == 0,
{
}

/// A command is run as the statement is written, or not at all.
pub proof fn law_commands_are_verbatim(
    objtype: ObjectType,
    cmd: AlterCmd,
    sql: Seq<char>,
    state: SyncState,
    i: int,
)
    requires
        0 <= i < cmd_statements(objtype, cmd, sql, state).len(),
    ensures
        cmd_statements(objtype, cmd, sql, state)[i].sql == sql,
{
}

/// When traffic moves over, nothing is run but what sets a sequence: of every other
/// statement nothing is left.
pub proof fn law_cutover_sets_sequences_only(
    node: Node,
    sql: Seq<char>,
    text: Result<Seq<char>, Seq<char>>,
)
    requires
        !(node is AlterSeqStmt),
    ensures
        node_statements(node, sql, SyncState::Cutover, text) == Ok::<
            Seq<StatementView>,
            super::error::SchemaSyncErrorView,
        >(Seq::empty()),
{
    if let Node::AlterTableStmt(alter) = node {
        let f = |c: AlterCmd| cmd_statements(alter.objtype, c, sql, SyncState::Cutover);
        lemma_nothing(alter.cmds@, f);
    }
}

proof fn lemma_nothing<A, B>(s: Seq<A>, f: spec_fn(A) -> Seq<B>)
    requires
        forall|a: A| (#[trigger] f(a)).len() == 0,
    ensures
        s.flat_map(f) == Seq::<B>::empty(),
    decreases s.len(),
{
    if s.len() > 0 {
        lemma_nothing(s.drop_last(), f);
        s.drop_last().lemma_flat_map_push(f, s.last());
        assert(s =~= s.drop_last().push(s.last()));
        assert(s.flat_map(f) =~= Seq::<B>::empty());
    } else {
        assert(s.flat_map(f) =~= Seq::<B>::empty());
    }
}

/// A statement other than an `ALTER TABLE` is run before the data or after it, not
/// in both phases.
pub proof fn law_statements_run_in_one_phase(
    node: Node,
    sql: Seq<char>,
    pre: Result<Seq<char>, Seq<char>>,
    post: Result<Seq<char>, Seq<char>>,
)
    requires
        !(node is AlterTableStmt),
    ensures
        node_statements(node, sql, SyncState::PreData, pre) == Ok::<
            Seq<StatementView>,
            super::error::SchemaSyncErrorView,
        >(Seq::empty()) || node_statements(node, sql, SyncState::PostData, post) == Ok::<
            Seq<StatementView>,
            super::error::SchemaSyncErrorView,
        >(Seq::empty()),
{
}

/// A foreign key and the integer primary key that it points at are widened
/// together, so that the types on both sides still agree.
pub proof fn law_foreign_keys_widen_along(
    stmts: Seq<RawStmt>,
    pk: ColumnView,
    fk: ColumnView,
)
    requires
        dump_foreign_keys(stmts).contains((pk, fk)),
        integer_primary_keys(stmts).contains(pk),
    ensures
        converted_keys(stmts).contains(pk),
        converted_keys(stmts).contains(fk),
{
}

/// A column is widened for its own keys only where it is an integer primary key
/// or points at one.
pub proof fn law_only_keys_widen(stmts: Seq<RawStmt>, column: ColumnView)
    requires
        converted_keys(stmts).contains(column),
    ensures
        dump_primary_keys(stmts).contains(column) || exists|pk: ColumnView| #[trigger]
            dump_foreign_keys(stmts).contains((pk, column)) && dump_primary_keys(stmts).contains(
                pk,
            ),
{
    if !dump_primary_keys(stmts).contains(column) {
        assert(integer_foreign_keys(stmts).contains(column));
        let pk = choose|pk: ColumnView|
            #![trigger integer_primary_keys(stmts).contains(pk)]
            dump_foreign_keys(stmts).contains((pk, column)) && integer_primary_keys(
                stmts,
            ).contains(pk);
        assert(dump_foreign_keys(stmts).contains((pk, column)));
    }
}

/// Without a parent, a column is widened exactly for its own keys.
pub proof fn law_plain_tables_widen_by_keys(
    column: ColumnView,
    def: ColumnDef,
    converted: Set<ColumnView>,
    widths: Seq<((TableNameView, Seq<char>), bool)>,
)
    ensures
        becomes_bigint(column, def, converted, None, widths) == converted.contains(column),
{
}

proof fn lemma_flat_map_has<A, B>(s: Seq<A>, f: spec_fn(A) -> Seq<B>, i: int, x: B)
    requires
        0 <= i < s.len(),
        f(s[i]).contains(x),
    ensures
        s.flat_map(f).contains(x),
    decreases s.len(),
{
    let front = s.drop_last();
    assert(s =~= front.push(s.last()));
    front.lemma_flat_map_push(f, s.last());
    let before = front.flat_map(f);
    let last = f(s.last());
    if i < front.len() {
        lemma_flat_map_has(front, f, i, x);
        let j = before.index_of(x);
        assert(s.flat_map(f)[j] == x);
    } else {
        let j = last.index_of(x);
        assert(s.flat_map(f)[before.len() + j] == x);
    }
}

proof fn lemma_flat_map_all<A, B>(s: Seq<A>, f: spec_fn(A) -> Seq<B>, holds: spec_fn(B) -> bool)
    requires
        forall|a: A, j: int| 0 <= j < f(a).len() ==> holds(#[trigger] f(a)[j]),
    ensures
        forall|j: int| 0 <= j < s.flat_map(f).len() ==> holds(#[trigger] s.flat_map(f)[j]),
    decreases s.len(),
{
    if s.len() > 0 {
        let front = s.drop_last();
        assert(s =~= front.push(s.last()));
        front.lemma_flat_map_push(f, s.last());
        lemma_flat_map_all(front, f, holds);
        let before = front.flat_map(f);
        assert forall|j: int| 0 <= j < s.flat_map(f).len() implies holds(
            #[trigger] s.flat_map(f)[j],
        ) by {
            if j < before.len() {
                assert(s.flat_map(f)[j] == before[j]);
            } else {
                assert(s.flat_map(f)[j] == f(s.last())[j - before.len()]);
            }
        }
    } else {
        assert(s.flat_map(f) =~= Seq::<B>::empty());
    }
}

proof fn lemma_last_of_same<K, V>(entries: Seq<(K, V)>, key: K, value: V)
    requires
        entries.contains((key, value)),
        forall|i: int|
            0 <= i < entries.len() && (#[trigger] entries[i]).0 == key ==> entries[i].1 == value,
    ensures
        last_of(entries, key) == Some(value),
    decreases entries.len(),
{
    if entries.last().0 != key {
        let front = entries.drop_last();
        let i = entries.index_of((key, value));
        assert(front[i] == (key, value));
        lemma_last_of_same(front, key, value);
    }
}

/// A partition follows its parent: where a column of the partitioned table is
/// widened for its keys, the integer column of that name is widened in every
/// partition, though the partition itself declares no key.
pub proof fn law_partitions_widen_along(
    stmts: Seq<RawStmt>,
    p: int,
    parent: CreateStmt,
    k: int,
    parent_def: ColumnDef,
    partition: CreateStmt,
    def: ColumnDef,
)
    requires
        0 <= p < stmts.len(),
        stmts[p].node == Node::CreateStmt(parent),
        parent.relation is Some,
        parent.partspec,
        0 <= k < parent.table_elts@.len(),
        parent.table_elts@[k] == TableElt::ColumnDef(parent_def),
        converted_keys(stmts).contains(
            column_in(created_table(parent), text_or_empty(parent_def.colname)),
        ),
        last_of(dump_parents(stmts), created_table(partition)) == Some(created_table(parent)),
        text_or_empty(def.colname) == text_or_empty(parent_def.colname),
        last_type_name(def) matches Some(Some(t)) && integer_type(t),
    ensures
        elt_becomes_bigint(stmts, partition, TableElt::ColumnDef(def)),
{
    let table = created_table(parent);
    let name = text_or_empty(def.colname);
    let converted = converted_keys(stmts);
    let partitioned = dump_partitioned(stmts);
    let entry = ((table, name), true);
    let parts = |s: RawStmt| stmt_partitioned(s);
    assert(parts(stmts[p])[0] == table);
    lemma_flat_map_has(stmts, parts, p, table);
    // The parent's column is among the widths.
    let widths = |s: RawStmt| stmt_widths(partitioned, converted, s);
    let elts = |e: TableElt| elt_width(table, converted, e);
    assert(elts(parent.table_elts@[k])[0] == entry);
    lemma_flat_map_has(parent.table_elts@, elts, k, entry);
    assert(widths(stmts[p]) == parent.table_elts@.flat_map(elts));
    lemma_flat_map_has(stmts, widths, p, entry);
    // No other statement gives it another width.
    let agrees = |e: ((TableNameView, Seq<char>), bool)| e.0 == (table, name) ==> e.1;
    assert forall|stmt: RawStmt, j: int| 0 <= j < widths(stmt).len() implies agrees(
        #[trigger] widths(stmt)[j],
    ) by {
        if let Node::CreateStmt(create) = stmt.node {
            let other = created_table(create);
            let others = |e: TableElt| elt_width(other, converted, e);
            lemma_flat_map_all(create.table_elts@, others, agrees);
            assert(widths(stmt) == create.table_elts@.flat_map(others));
        }
    }
    lemma_flat_map_all(stmts, widths, agrees);
    let all = dump_widths(stmts, converted);
    assert(all == stmts.flat_map(widths));
    assert forall|i: int| 0 <= i < all.len() && (#[trigger] all[i]).0 == (table, name) implies all[i].1
        == true by {
        assert(agrees(all[i]));
    }
    lemma_last_of_same(all, (table, name), true);
}

} // verus!
