//! Which columns of a dump are widened to `bigint`, told from the dump's statements.

use vstd::prelude::*;

use super::ast::{
    AlterCmd, AlterTableType, CmdDef, ColumnView, ConstrType, Constraint, CreateStmt, Node,
    RangeVar, RawStmt, TableElt, TableNameView,
};
use super::columns::{
    attr_pairs, cmd_foreign_keys, cmd_primary_keys, constraint_pairs, converted_keys,
    defined_as_integer, dump_foreign_keys, dump_primary_keys, dump_types, elt_types,
    integer_foreign_keys, integer_primary_keys, key_columns, last_of, paired_columns,
    stmt_foreign_keys, stmt_primary_keys, stmt_types,
};
use super::partitions::{
    cmd_parents, column_in, dump_parents, dump_partitioned, dump_widths, elt_width, stmt_parents,
    stmt_partitioned, stmt_widths,
};
use super::pg_dump::{bigint_elts, created_table, PgDumpOutput, Rewrite, SyncState};

verus! {

proof fn lemma_flat_map_contains<A, B>(s: Seq<A>, f: spec_fn(A) -> Seq<B>, x: B)
    ensures
        s.flat_map(f).contains(x) <==> exists|i: int|
            0 <= i < s.len() && f(#[trigger] s[i]).contains(x),
    decreases s.len(),
{
    if s.len() == 0 {
        assert(s.flat_map(f) =~= Seq::<B>::empty());
    } else {
        let rest = s.drop_last();
        let last = s.len() - 1;
        lemma_flat_map_contains(rest, f, x);
        rest.lemma_flat_map_push(f, s.last());
        assert(s =~= rest.push(s.last()));
        let before = rest.flat_map(f);
        let own = f(s[last]);
        assert(s.flat_map(f) == before + own);
        if s.flat_map(f).contains(x) {
            let k = s.flat_map(f).index_of(x);
            if k < before.len() {
                assert(before[k] == x);
                let i = choose|i: int| 0 <= i < rest.len() && f(#[trigger] rest[i]).contains(x);
                assert(rest[i] == s[i]);
            } else {
                assert(own[k - before.len()] == x);
                assert(f(s[last]).contains(x));
            }
        }
        if exists|i: int| 0 <= i < s.len() && f(#[trigger] s[i]).contains(x) {
            let i = choose|i: int| 0 <= i < s.len() && f(#[trigger] s[i]).contains(x);
            if i < last {
                assert(rest[i] == s[i]);
                let k = before.index_of(x);
                assert((before + own)[k] == x);
            } else {
                let k = own.index_of(x);
                assert((before + own)[before.len() + k] == x);
            }
        }
    }
}

/// A column of a table, by the names that a statement writes. A schema that is left out
/// is `public`.
pub open spec fn column_at(relation: RangeVar, name: Seq<char>) -> ColumnView {
    ColumnView {
        name,
        table: Some(
            match relation.relname {
                Some(name) => name@,
                None => Seq::empty(),
            },
        ),
        schema: Some(
            match relation.schemaname {
                Some(schema) => schema@,
                None => "public"@,
            },
        ),
    }
}

/// The constraint that a command of the dump adds to a table, where it adds one.
pub open spec fn adds(
    stmts: Seq<RawStmt>,
    k: int,
    j: int,
    relation: RangeVar,
    cons: Constraint,
) -> bool {
    0 <= k < stmts.len() && (stmts[k].node matches Node::AlterTableStmt(alter) && {
        &&& alter.relation == Some(relation)
        &&& 0 <= j < alter.cmds@.len()
        &&& alter.cmds@[j] matches AlterCmd::AlterTableCmd(cmd) && {
            &&& cmd.subtype == AlterTableType::AddConstraint
            &&& cmd.def == CmdDef::Constraint(cons)
        }
    })
}

/// Whether a command of the dump makes a column part of a primary key.
pub open spec fn is_primary_key_at(
    stmts: Seq<RawStmt>,
    k: int,
    j: int,
    m: int,
    relation: RangeVar,
    cons: Constraint,
    c: ColumnView,
) -> bool {
    &&& adds(stmts, k, j, relation, cons)
    &&& cons.contype == ConstrType::Primary
    &&& 0 <= m < cons.keys@.len()
    &&& cons.keys@[m] matches Some(name) && c == column_at(relation, name@)
}

/// Whether a column is part of a primary key of the dump.
pub open spec fn is_primary_key(stmts: Seq<RawStmt>, c: ColumnView) -> bool {
    exists|k: int, j: int, m: int, relation: RangeVar, cons: Constraint| #[trigger]
        is_primary_key_at(stmts, k, j, m, relation, cons, c)
}

spec fn key_column(relation: RangeVar) -> spec_fn(Option<String>) -> Seq<ColumnView> {
    |k: Option<String>|
        match k {
            Some(name) => seq![super::ast::column_of(relation, name@)],
            None => Seq::<ColumnView>::empty(),
        }
}

/// The primary keys of a dump are the columns that some command names as such.
pub proof fn law_primary_keys_are_found(stmts: Seq<RawStmt>, c: ColumnView)
    ensures
        dump_primary_keys(stmts).contains(c) <==> is_primary_key(stmts, c),
{
    let f = |s: RawStmt| stmt_primary_keys(s);
    lemma_flat_map_contains(stmts, f, c);
    if dump_primary_keys(stmts).contains(c) {
        let k = choose|k: int| 0 <= k < stmts.len() && f(#[trigger] stmts[k]).contains(c);
        assert(stmt_primary_keys(stmts[k]).contains(c));
        if let Node::AlterTableStmt(alter) = stmts[k].node {
            if let Some(relation) = alter.relation {
                let g = |a: AlterCmd| cmd_primary_keys(relation, a);
                lemma_flat_map_contains(alter.cmds@, g, c);
                let j = choose|j: int|
                    0 <= j < alter.cmds@.len() && g(#[trigger] alter.cmds@[j]).contains(c);
                if let AlterCmd::AlterTableCmd(cmd) = alter.cmds@[j] {
                    if let CmdDef::Constraint(cons) = cmd.def {
                        let h = key_column(relation);
                        lemma_same_keys(relation, cons.keys@);
                        lemma_flat_map_contains(cons.keys@, h, c);
                        let m = choose|m: int|
                            0 <= m < cons.keys@.len() && h(#[trigger] cons.keys@[m]).contains(c);
                        assert(is_primary_key_at(stmts, k, j, m, relation, cons, c));
                    }
                }
            }
        }
    }
    if is_primary_key(stmts, c) {
        let (k, j, m, relation, cons) = choose|
            k: int,
            j: int,
            m: int,
            relation: RangeVar,
            cons: Constraint,
        | #[trigger]
            is_primary_key_at(stmts, k, j, m, relation, cons, c);
        if let Node::AlterTableStmt(alter) = stmts[k].node {
            let g = |a: AlterCmd| cmd_primary_keys(relation, a);
            let h = key_column(relation);
            lemma_same_keys(relation, cons.keys@);
            lemma_flat_map_contains(cons.keys@, h, c);
            assert(h(cons.keys@[m])[0] == c);
            assert(g(alter.cmds@[j]).contains(c));
            lemma_flat_map_contains(alter.cmds@, g, c);
            assert(f(stmts[k]).contains(c));
        }
    }
}

proof fn lemma_same_keys(relation: RangeVar, keys: Seq<Option<String>>)
    ensures
        key_columns(relation, keys) == keys.flat_map(key_column(relation)),
{
    let f = |k: Option<String>|
        match k {
            Some(name) => seq![super::ast::column_of(relation, name@)],
            None => Seq::<ColumnView>::empty(),
        };
    assert(f =~= key_column(relation));
}

/// Whether a command of the dump makes one column point at another.
pub open spec fn points_at(
    stmts: Seq<RawStmt>,
    k: int,
    j: int,
    m: int,
    relation: RangeVar,
    cons: Constraint,
    pk: ColumnView,
    fk: ColumnView,
) -> bool {
    &&& adds(stmts, k, j, relation, cons)
    &&& cons.contype == ConstrType::Foreign
    &&& 0 <= m < cons.pk_attrs@.len()
    &&& m < cons.fk_attrs@.len()
    &&& cons.pktable is Some
    &&& cons.pk_attrs@[m] matches Some(name) && pk == column_at(cons.pktable->0, name@)
    &&& cons.fk_attrs@[m] matches Some(name) && fk == column_at(relation, name@)
}

/// Whether a column points at another by a foreign key of the dump.
pub open spec fn is_foreign_key(stmts: Seq<RawStmt>, pk: ColumnView, fk: ColumnView) -> bool {
    exists|k: int, j: int, m: int, relation: RangeVar, cons: Constraint| #[trigger]
        points_at(stmts, k, j, m, relation, cons, pk, fk)
}

/// The foreign keys of a dump are the pairs of columns that some command names as such,
/// place by place.
pub proof fn law_foreign_keys_are_found(stmts: Seq<RawStmt>, pk: ColumnView, fk: ColumnView)
    ensures
        dump_foreign_keys(stmts).contains((pk, fk)) <==> is_foreign_key(stmts, pk, fk),
{
    let c = (pk, fk);
    let f = |s: RawStmt| stmt_foreign_keys(s);
    lemma_flat_map_contains(stmts, f, c);
    if dump_foreign_keys(stmts).contains(c) {
        let k = choose|k: int| 0 <= k < stmts.len() && f(#[trigger] stmts[k]).contains(c);
        assert(stmt_foreign_keys(stmts[k]).contains(c));
        if let Node::AlterTableStmt(alter) = stmts[k].node {
            if let Some(relation) = alter.relation {
                let g = |a: AlterCmd| cmd_foreign_keys(relation, a);
                lemma_flat_map_contains(alter.cmds@, g, c);
                let j = choose|j: int|
                    0 <= j < alter.cmds@.len() && g(#[trigger] alter.cmds@[j]).contains(c);
                if let AlterCmd::AlterTableCmd(cmd) = alter.cmds@[j] {
                    if let CmdDef::Constraint(cons) = cmd.def {
                        if let Some(table) = cons.pktable {
                            let h = |p: (Option<String>, Option<String>)|
                                paired_columns(table, relation, p.0, p.1);
                            let pairs = attr_pairs(cons.pk_attrs@, cons.fk_attrs@);
                            lemma_flat_map_contains(pairs, h, c);
                            let m = choose|m: int|
                                0 <= m < pairs.len() && h(#[trigger] pairs[m]).contains(c);
                            assert(points_at(stmts, k, j, m, relation, cons, pk, fk));
                        }
                    }
                }
            }
        }
    }
    if is_foreign_key(stmts, pk, fk) {
        let (k, j, m, relation, cons) = choose|
            k: int,
            j: int,
            m: int,
            relation: RangeVar,
            cons: Constraint,
        | #[trigger]
            points_at(stmts, k, j, m, relation, cons, pk, fk);
        if let Node::AlterTableStmt(alter) = stmts[k].node {
            let g = |a: AlterCmd| cmd_foreign_keys(relation, a);
            let table = cons.pktable->0;
            let h = |p: (Option<String>, Option<String>)|
                paired_columns(table, relation, p.0, p.1);
            let pairs = attr_pairs(cons.pk_attrs@, cons.fk_attrs@);
            lemma_flat_map_contains(pairs, h, c);
            assert(pairs[m] == (cons.pk_attrs@[m], cons.fk_attrs@[m]));
            assert(h(pairs[m])[0] == c);
            assert(constraint_pairs(relation, cons).contains(c));
            assert(g(alter.cmds@[j]).contains(c));
            lemma_flat_map_contains(alter.cmds@, g, c);
            assert(f(stmts[k]).contains(c));
        }
    }
}

/// Whether a statement of the dump defines a column of a type.
pub open spec fn defines(
    stmts: Seq<RawStmt>,
    k: int,
    j: int,
    relation: RangeVar,
    c: ColumnView,
    t: Seq<char>,
) -> bool {
    0 <= k < stmts.len() && (stmts[k].node matches Node::CreateStmt(create) && {
        &&& create.relation == Some(relation)
        &&& 0 <= j < create.table_elts@.len()
        &&& create.table_elts@[j] matches TableElt::ColumnDef(def) && {
            &&& def.type_names is Some
            &&& def.type_names->0@.len() > 0
            &&& t == (match def.type_names->0@.last() {
                Some(name) => name@,
                None => Seq::empty(),
            })
            &&& c == column_at(
                relation,
                match def.colname {
                    Some(name) => name@,
                    None => Seq::empty(),
                },
            )
        }
    })
}

/// Whether a type is one of the integers that `bigint` has room for.
pub open spec fn is_narrow_integer(t: Seq<char>) -> bool {
    ||| t == "int2"@
    ||| t == "smallint"@
    ||| t == "smallserial"@
    ||| t == "int4"@
    ||| t == "integer"@
    ||| t == "serial"@
}

proof fn lemma_types(stmts: Seq<RawStmt>, c: ColumnView, t: Seq<char>)
    ensures
        dump_types(stmts).contains((c, t)) <==> exists|k: int, j: int, relation: RangeVar|
            #[trigger]
            defines(stmts, k, j, relation, c, t),
{
    let x = (c, t);
    let f = |s: RawStmt| stmt_types(s);
    lemma_flat_map_contains(stmts, f, x);
    if dump_types(stmts).contains(x) {
        let k = choose|k: int| 0 <= k < stmts.len() && f(#[trigger] stmts[k]).contains(x);
        assert(stmt_types(stmts[k]).contains(x));
        if let Node::CreateStmt(create) = stmts[k].node {
            if let Some(relation) = create.relation {
                let g = |e: TableElt| elt_types(relation, e);
                lemma_flat_map_contains(create.table_elts@, g, x);
                let j = choose|j: int|
                    0 <= j < create.table_elts@.len() && g(
                        #[trigger] create.table_elts@[j],
                    ).contains(x);
                assert(elt_types(relation, create.table_elts@[j]).contains(x));
                assert(defines(stmts, k, j, relation, c, t));
            }
        }
    }
    if exists|k: int, j: int, relation: RangeVar| #[trigger] defines(stmts, k, j, relation, c, t) {
        let (k, j, relation) = choose|k: int, j: int, relation: RangeVar| #[trigger]
            defines(stmts, k, j, relation, c, t);
        if let Node::CreateStmt(create) = stmts[k].node {
            let g = |e: TableElt| elt_types(relation, e);
            assert(elt_types(relation, create.table_elts@[j])[0] == x);
            assert(g(create.table_elts@[j]).contains(x));
            lemma_flat_map_contains(create.table_elts@, g, x);
            assert(f(stmts[k]).contains(x));
        }
    }
}

proof fn lemma_last_of<K, V>(entries: Seq<(K, V)>, key: K)
    ensures
        match last_of(entries, key) {
            Some(v) => entries.contains((key, v)),
            None => forall|v: V| !(#[trigger] entries.contains((key, v))),
        },
    decreases entries.len(),
{
    if entries.len() > 0 {
        let rest = entries.drop_last();
        let last = entries.len() - 1;
        lemma_last_of(rest, key);
        if entries[last].0 == key {
            assert(entries[last] == (key, entries[last].1));
        } else {
            match last_of(rest, key) {
                Some(v) => {
                    let i = rest.index_of((key, v));
                    assert(entries[i] == (key, v));
                },
                None => {
                    assert forall|v: V| !(#[trigger] entries.contains((key, v))) by {
                        if entries.contains((key, v)) {
                            let i = entries.index_of((key, v));
                            assert(rest[i] == (key, v));
                            assert(rest.contains((key, v)));
                        }
                    }
                },
            }
        }
    }
}

/// A column is a narrow integer where it is defined as one: where every definition of
/// it says so and there is one, and not where none says so.
pub proof fn law_integers_are_told_by_their_definition(stmts: Seq<RawStmt>, c: ColumnView)
    ensures
        (exists|k: int, j: int, relation: RangeVar, t: Seq<char>| #[trigger]
            defines(stmts, k, j, relation, c, t)) && (forall|
            k: int,
            j: int,
            relation: RangeVar,
            t: Seq<char>,
        | #[trigger]
            defines(stmts, k, j, relation, c, t) ==> is_narrow_integer(t)) ==> defined_as_integer(
            stmts,
            c,
        ),
        (forall|k: int, j: int, relation: RangeVar, t: Seq<char>| #[trigger]
            defines(stmts, k, j, relation, c, t) ==> !is_narrow_integer(t))
            ==> !defined_as_integer(stmts, c),
{
    let types = dump_types(stmts);
    lemma_last_of(types, c);
    match last_of(types, c) {
        Some(t) => {
            lemma_types(stmts, c, t);
            let (k, j, relation) = choose|k: int, j: int, relation: RangeVar| #[trigger]
                defines(stmts, k, j, relation, c, t);
            assert(defines(stmts, k, j, relation, c, t));
        },
        None => {
            assert forall|k: int, j: int, relation: RangeVar, t: Seq<char>|
                !(#[trigger] defines(stmts, k, j, relation, c, t)) by {
                lemma_types(stmts, c, t);
                assert(!types.contains((c, t)));
            }
        },
    }
}

/// Whether a column is widened for its keys: it is an integer primary key, or points
/// at one.
pub open spec fn widens_for_keys(stmts: Seq<RawStmt>, c: ColumnView) -> bool {
    ||| is_primary_key(stmts, c) && defined_as_integer(stmts, c)
    ||| exists|pk: ColumnView| #[trigger]
        is_foreign_key(stmts, pk, c) && is_primary_key(stmts, pk) && defined_as_integer(stmts, pk)
}

/// Integer primary keys, and what points at them, are the columns that widen for their
/// keys.
pub proof fn law_keys_are_widened(stmts: Seq<RawStmt>, c: ColumnView)
    ensures
        converted_keys(stmts).contains(c) <==> widens_for_keys(stmts, c),
{
    law_primary_keys_are_found(stmts, c);
    if integer_foreign_keys(stmts).contains(c) {
        let pk = choose|pk: ColumnView|
            #![trigger integer_primary_keys(stmts).contains(pk)]
            dump_foreign_keys(stmts).contains((pk, c)) && integer_primary_keys(stmts).contains(pk);
        law_foreign_keys_are_found(stmts, pk, c);
        law_primary_keys_are_found(stmts, pk);
        assert(is_foreign_key(stmts, pk, c));
    }
    if exists|pk: ColumnView| #[trigger]
        is_foreign_key(stmts, pk, c) && is_primary_key(stmts, pk) && defined_as_integer(stmts, pk) {
        let pk = choose|pk: ColumnView| #[trigger]
            is_foreign_key(stmts, pk, c) && is_primary_key(stmts, pk) && defined_as_integer(
                stmts,
                pk,
            );
        law_foreign_keys_are_found(stmts, pk, c);
        law_primary_keys_are_found(stmts, pk);
        assert(integer_primary_keys(stmts).contains(pk));
    }
}

/// Whether a statement of the dump attaches a partition to some table.
pub open spec fn attaches(stmts: Seq<RawStmt>, k: int, j: int, child: TableNameView) -> bool {
    0 <= k < stmts.len() && (stmts[k].node matches Node::AlterTableStmt(alter) && {
        &&& alter.relation is Some
        &&& 0 <= j < alter.cmds@.len()
        &&& alter.cmds@[j] matches AlterCmd::AlterTableCmd(cmd) && {
            &&& cmd.subtype == AlterTableType::AttachPartition
            &&& cmd.def matches CmdDef::PartitionCmd(Some(named)) && super::ast::table_name_of(
                named,
            ) == child
        }
    })
}

proof fn lemma_no_parent(stmts: Seq<RawStmt>, child: TableNameView)
    requires
        forall|k: int, j: int| !(#[trigger] attaches(stmts, k, j, child)),
    ensures
        last_of(dump_parents(stmts), child) is None,
{
    let parents = dump_parents(stmts);
    lemma_last_of(parents, child);
    if let Some(parent) = last_of(parents, child) {
        let x = (child, parent);
        let f = |s: RawStmt| stmt_parents(s);
        lemma_flat_map_contains(stmts, f, x);
        let k = choose|k: int| 0 <= k < stmts.len() && f(#[trigger] stmts[k]).contains(x);
        assert(stmt_parents(stmts[k]).contains(x));
        if let Node::AlterTableStmt(alter) = stmts[k].node {
            if let Some(relation) = alter.relation {
                let g = |a: AlterCmd| cmd_parents(relation, a);
                lemma_flat_map_contains(alter.cmds@, g, x);
                let j = choose|j: int|
                    0 <= j < alter.cmds@.len() && g(#[trigger] alter.cmds@[j]).contains(x);
                assert(cmd_parents(relation, alter.cmds@[j]).contains(x));
                assert(attaches(stmts, k, j, child));
            }
        }
    }
}

/// Of a table that is no partition, the columns that are created as `bigint` are those
/// that widen for their keys, each in its place.
pub proof fn law_tables_are_created_with_wide_keys(
    dump: PgDumpOutput,
    out: Vec<Option<Rewrite>>,
    i: int,
    create: CreateStmt,
    relation: RangeVar,
    j: int,
)
    requires
        call_ensures(PgDumpOutput::rewrites, (&dump, SyncState::PreData), out),
        0 <= i < dump.stmts@.len(),
        dump.stmts@[i].node == Node::CreateStmt(create),
        create.relation == Some(relation),
        0 <= j < create.table_elts@.len(),
        create.table_elts@[j] is ColumnDef,
        create.table_elts@[j]->ColumnDef_0.type_names is Some,
        forall|k: int, m: int| !(#[trigger] attaches(
            dump.stmts@,
            k,
            m,
            super::ast::table_name_of(relation),
        )),
    ensures
        out@[i] is Some,
        out@[i]->0 is CreateTable,
        out@[i]->0->bigint@.len() == create.table_elts@.len(),
        out@[i]->0->bigint@[j] <==> widens_for_keys(
            dump.stmts@,
            column_at(
                relation,
                match create.table_elts@[j]->ColumnDef_0.colname {
                    Some(name) => name@,
                    None => Seq::empty(),
                },
            ),
        ),
{
    let stmts = dump.stmts@;
    let def = create.table_elts@[j]->ColumnDef_0;
    let name = super::ast::text_or_empty(def.colname);
    let c = column_at(relation, name);
    law_keys_are_widened(stmts, c);
    lemma_no_parent(stmts, created_table(create));
    assert(column_in(created_table(create), name) == c);
    let wide = bigint_elts(stmts, create);
    assert(out@[i] is Some && out@[i]->0 is CreateTable);
    assert(out@[i]->0->bigint@ == wide);
    assert(wide[j] == super::pg_dump::elt_becomes_bigint(stmts, create, create.table_elts@[j]));
}

/// Whether a statement of the dump attaches a partition to a parent.
pub open spec fn attaches_to(
    stmts: Seq<RawStmt>,
    k: int,
    j: int,
    child: TableNameView,
    parent: TableNameView,
) -> bool {
    &&& attaches(stmts, k, j, child)
    &&& super::ast::table_name_of(stmts[k].node->AlterTableStmt_0.relation->0) == parent
}

proof fn lemma_parent(stmts: Seq<RawStmt>, child: TableNameView, parent: TableNameView)
    requires
        exists|k: int, j: int| #[trigger] attaches_to(stmts, k, j, child, parent),
        forall|k: int, j: int, other: TableNameView| #[trigger]
            attaches_to(stmts, k, j, child, other) ==> other == parent,
    ensures
        last_of(dump_parents(stmts), child) == Some(parent),
{
    let parents = dump_parents(stmts);
    let f = |s: RawStmt| stmt_parents(s);
    lemma_last_of(parents, child);
    match last_of(parents, child) {
        Some(found) => {
            let x = (child, found);
            lemma_flat_map_contains(stmts, f, x);
            let k = choose|k: int| 0 <= k < stmts.len() && f(#[trigger] stmts[k]).contains(x);
            assert(stmt_parents(stmts[k]).contains(x));
            if let Node::AlterTableStmt(alter) = stmts[k].node {
                if let Some(relation) = alter.relation {
                    let g = |a: AlterCmd| cmd_parents(relation, a);
                    lemma_flat_map_contains(alter.cmds@, g, x);
                    let j = choose|j: int|
                        0 <= j < alter.cmds@.len() && g(#[trigger] alter.cmds@[j]).contains(x);
                    assert(cmd_parents(relation, alter.cmds@[j]).contains(x));
                    assert(attaches_to(stmts, k, j, child, found));
                }
            }
        },
        None => {
            let (k, j) = choose|k: int, j: int| #[trigger]
                attaches_to(stmts, k, j, child, parent);
            let x = (child, parent);
            if let Node::AlterTableStmt(alter) = stmts[k].node {
                let relation = alter.relation->0;
                let g = |a: AlterCmd| cmd_parents(relation, a);
                assert(cmd_parents(relation, alter.cmds@[j])[0] == x);
                assert(g(alter.cmds@[j]).contains(x));
                lemma_flat_map_contains(alter.cmds@, g, x);
                assert(f(stmts[k]).contains(x));
                lemma_flat_map_contains(stmts, f, x);
            }
        },
    }
}

/// Whether a statement of the dump creates a partitioned table.
pub open spec fn partitions(stmts: Seq<RawStmt>, k: int, table: TableNameView) -> bool {
    0 <= k < stmts.len() && (stmts[k].node matches Node::CreateStmt(create) && create.partspec
        && create.relation is Some && super::ast::table_name_of(create.relation->0) == table)
}

/// Whether a statement of the dump tells how wide an integer column of a table will be:
/// wide where it widens for its keys or is an `int8`, not wide where it is an `int4`.
pub open spec fn tells_width(
    stmts: Seq<RawStmt>,
    k: int,
    j: int,
    table: TableNameView,
    name: Seq<char>,
    wide: bool,
) -> bool {
    0 <= k < stmts.len() && (stmts[k].node matches Node::CreateStmt(create) && {
        &&& create.relation is Some
        &&& super::ast::table_name_of(create.relation->0) == table
        &&& 0 <= j < create.table_elts@.len()
        &&& create.table_elts@[j] matches TableElt::ColumnDef(def) && {
            let t = super::ast::last_type_name(def);
            &&& super::ast::text_or_empty(def.colname) == name
            &&& if widens_for_keys(stmts, column_in(table, name)) {
                wide
            } else {
                ||| wide && t == Some(Some("int8"@))
                ||| !wide && t == Some(Some("int4"@))
            }
        }
    })
}

proof fn lemma_partitioned(stmts: Seq<RawStmt>, table: TableNameView)
    ensures
        dump_partitioned(stmts).contains(table) <==> exists|k: int| #[trigger]
            partitions(stmts, k, table),
{
    let f = |s: RawStmt| stmt_partitioned(s);
    lemma_flat_map_contains(stmts, f, table);
    if dump_partitioned(stmts).contains(table) {
        let k = choose|k: int| 0 <= k < stmts.len() && f(#[trigger] stmts[k]).contains(table);
        assert(stmt_partitioned(stmts[k]).contains(table));
        assert(partitions(stmts, k, table));
    }
    if exists|k: int| #[trigger] partitions(stmts, k, table) {
        let k = choose|k: int| #[trigger] partitions(stmts, k, table);
        assert(stmt_partitioned(stmts[k])[0] == table);
        assert(f(stmts[k]).contains(table));
    }
}

proof fn lemma_widths(stmts: Seq<RawStmt>, table: TableNameView, name: Seq<char>, wide: bool)
    requires
        exists|k: int| #[trigger] partitions(stmts, k, table),
    ensures
        dump_widths(stmts, converted_keys(stmts)).contains(((table, name), wide)) <==> exists|
            k: int,
            j: int,
        | #[trigger]
            tells_width(stmts, k, j, table, name, wide),
{
    reveal_strlit("int4");
    reveal_strlit("int8");
    assert("int4"@[3] != "int8"@[3]);
    let x = ((table, name), wide);
    let keys = converted_keys(stmts);
    let f = |s: RawStmt| stmt_widths(dump_partitioned(stmts), keys, s);
    lemma_flat_map_contains(stmts, f, x);
    lemma_partitioned(stmts, table);
    law_keys_are_widened(stmts, column_in(table, name));
    if dump_widths(stmts, keys).contains(x) {
        let k = choose|k: int| 0 <= k < stmts.len() && f(#[trigger] stmts[k]).contains(x);
        assert(stmt_widths(dump_partitioned(stmts), keys, stmts[k]).contains(x));
        if let Node::CreateStmt(create) = stmts[k].node {
            if let Some(relation) = create.relation {
                let own = super::ast::table_name_of(relation);
                let g = |e: TableElt| elt_width(own, keys, e);
                lemma_flat_map_contains(create.table_elts@, g, x);
                let j = choose|j: int|
                    0 <= j < create.table_elts@.len() && g(
                        #[trigger] create.table_elts@[j],
                    ).contains(x);
                assert(elt_width(own, keys, create.table_elts@[j]).contains(x));
                assert(tells_width(stmts, k, j, table, name, wide));
            }
        }
    }
    if exists|k: int, j: int| #[trigger] tells_width(stmts, k, j, table, name, wide) {
        let (k, j) = choose|k: int, j: int| #[trigger]
            tells_width(stmts, k, j, table, name, wide);
        if let Node::CreateStmt(create) = stmts[k].node {
            let own = super::ast::table_name_of(create.relation->0);
            let g = |e: TableElt| elt_width(own, keys, e);
            assert(elt_width(own, keys, create.table_elts@[j])[0] == x);
            assert(g(create.table_elts@[j]).contains(x));
            lemma_flat_map_contains(create.table_elts@, g, x);
            assert(f(stmts[k]).contains(x));
        }
    }
}

/// Of a partition, an integer column is created as wide as the column of that name in
/// the partitioned table it is attached to, where the dump tells how wide that is.
pub proof fn law_partitions_are_as_wide_as_their_parent(
    dump: PgDumpOutput,
    out: Vec<Option<Rewrite>>,
    i: int,
    create: CreateStmt,
    relation: RangeVar,
    j: int,
    parent: TableNameView,
    wide: bool,
)
    requires
        call_ensures(PgDumpOutput::rewrites, (&dump, SyncState::PreData), out),
        0 <= i < dump.stmts@.len(),
        dump.stmts@[i].node == Node::CreateStmt(create),
        create.relation == Some(relation),
        0 <= j < create.table_elts@.len(),
        create.table_elts@[j] is ColumnDef,
        super::ast::last_type_name(create.table_elts@[j]->ColumnDef_0) matches Some(Some(t))
            && is_narrow_integer(t),
        exists|k: int, m: int| #[trigger]
            attaches_to(dump.stmts@, k, m, super::ast::table_name_of(relation), parent),
        forall|k: int, m: int, other: TableNameView| #[trigger]
            attaches_to(dump.stmts@, k, m, super::ast::table_name_of(relation), other) ==> other
                == parent,
        exists|k: int| #[trigger] partitions(dump.stmts@, k, parent),
        exists|k: int, m: int| #[trigger]
            tells_width(
                dump.stmts@,
                k,
                m,
                parent,
                super::ast::text_or_empty(create.table_elts@[j]->ColumnDef_0.colname),
                wide,
            ),
        forall|k: int, m: int, other: bool| #[trigger]
            tells_width(
                dump.stmts@,
                k,
                m,
                parent,
                super::ast::text_or_empty(create.table_elts@[j]->ColumnDef_0.colname),
                other,
            ) ==> other == wide,
    ensures
        out@[i] is Some,
        out@[i]->0 is CreateTable,
        out@[i]->0->bigint@[j] <==> wide || widens_for_keys(
            dump.stmts@,
            column_at(
                relation,
                match create.table_elts@[j]->ColumnDef_0.colname {
                    Some(name) => name@,
                    None => Seq::empty(),
                },
            ),
        ),
{
    let stmts = dump.stmts@;
    let def = create.table_elts@[j]->ColumnDef_0;
    let name = super::ast::text_or_empty(def.colname);
    let c = column_at(relation, name);
    law_keys_are_widened(stmts, c);
    lemma_parent(stmts, created_table(create), parent);
    assert(column_in(created_table(create), name) == c);
    let widths = dump_widths(stmts, converted_keys(stmts));
    lemma_last_of(widths, (parent, name));
    lemma_widths(stmts, parent, name, wide);
    match last_of(widths, (parent, name)) {
        Some(w) => {
            if w != wide {
                assert(widths.contains(((parent, name), w)));
                lemma_widths(stmts, parent, name, w);
                let (k, m) = choose|k: int, m: int| #[trigger]
                    tells_width(stmts, k, m, parent, name, w);
                assert(tells_width(stmts, k, m, parent, name, w));
            }
        },
        None => {
            assert(widths.contains(((parent, name), wide)));
        },
    }
    let flags = bigint_elts(stmts, create);
    assert(out@[i] is Some && out@[i]->0 is CreateTable);
    assert(out@[i]->0->bigint@ == flags);
    assert(flags[j] == super::pg_dump::elt_becomes_bigint(stmts, create, create.table_elts@[j]));
}

/// A column that is no narrow integer is never widened for the sake of a parent, nor one
/// that has no type name.
pub proof fn law_other_columns_stay_as_they_are(
    dump: PgDumpOutput,
    out: Vec<Option<Rewrite>>,
    i: int,
    create: CreateStmt,
    relation: RangeVar,
    j: int,
)
    requires
        call_ensures(PgDumpOutput::rewrites, (&dump, SyncState::PreData), out),
        0 <= i < dump.stmts@.len(),
        dump.stmts@[i].node == Node::CreateStmt(create),
        create.relation == Some(relation),
        0 <= j < create.table_elts@.len(),
        create.table_elts@[j] matches TableElt::ColumnDef(def) ==> (super::ast::last_type_name(
            def,
        ) matches Some(Some(t)) ==> !is_narrow_integer(t)),
    ensures
        out@[i] is Some,
        out@[i]->0 is CreateTable,
        out@[i]->0->bigint@[j] ==> create.table_elts@[j] is ColumnDef && widens_for_keys(
            dump.stmts@,
            column_at(
                relation,
                match create.table_elts@[j]->ColumnDef_0.colname {
                    Some(name) => name@,
                    None => Seq::empty(),
                },
            ),
        ),
{
    let stmts = dump.stmts@;
    let flags = bigint_elts(stmts, create);
    assert(out@[i] is Some && out@[i]->0 is CreateTable);
    assert(out@[i]->0->bigint@ == flags);
    assert(flags[j] == super::pg_dump::elt_becomes_bigint(stmts, create, create.table_elts@[j]));
    if let TableElt::ColumnDef(def) = create.table_elts@[j] {
        let name = super::ast::text_or_empty(def.colname);
        let c = column_at(relation, name);
        law_keys_are_widened(stmts, c);
        assert(column_in(created_table(create), name) == c);
    }
}

} // verus!
