//! Which columns of a dump become `bigint`: the integer primary keys, the
//! foreign keys that point at them, and the same columns in partitions.

use vstd::prelude::*;

use super::ast::{
    column_of, integer_type, is_integer_type, last_name, last_type_name, relation_column,
    string_or_empty, text_or_empty, AlterCmd, AlterTableType, CmdDef, Column, ColumnDef, ColumnView,
    ConstrType, Constraint, CreateStmt, Node, RangeVar, RawStmt, TableElt,
};


verus! {

/// The last value that was put under a key.
pub open spec fn last_of<K, V>(entries: Seq<(K, V)>, key: K) -> Option<V>
    decreases entries.len(),
{
    if entries.len() == 0 {
        None
    } else if entries.last().0 == key {
        Some(entries.last().1)
    } else {
        last_of(entries.drop_last(), key)
    }
}

/// Each column of a list.
pub open spec fn column_views(v: Seq<Column>) -> Seq<ColumnView> {
    v.map_values(|c: Column| c@)
}

/// The column that an element of a `CREATE TABLE` defines, with the last part
/// of its type's name.
pub open spec fn elt_types(relation: RangeVar, elt: TableElt) -> Seq<(ColumnView, Seq<char>)> {
    match elt {
        TableElt::ColumnDef(def) => match last_type_name(def) {
            Some(name) => seq![
                (
                    column_of(relation, text_or_empty(def.colname)),
                    match name {
                        Some(s) => s,
                        None => Seq::empty(),
                    },
                ),
            ],
            None => Seq::empty(),
        },
        TableElt::Other => Seq::empty(),
    }
}

/// The columns that a statement defines, with their types.
pub open spec fn stmt_types(stmt: RawStmt) -> Seq<(ColumnView, Seq<char>)> {
    match stmt.node {
        Node::CreateStmt(create) => match create.relation {
            Some(relation) => create.table_elts@.flat_map(|e: TableElt| elt_types(relation, e)),
            None => Seq::empty(),
        },
        _ => Seq::empty(),
    }
}

/// The columns that a dump defines, with their types, in order.
pub open spec fn dump_types(stmts: Seq<RawStmt>) -> Seq<(ColumnView, Seq<char>)> {
    stmts.flat_map(|s: RawStmt| stmt_types(s))
}

/// Each entry of a list of column types.
pub open spec fn type_views(v: Seq<(Column, String)>) -> Seq<(ColumnView, Seq<char>)> {
    v.map_values(|e: (Column, String)| (e.0@, e.1@))
}

/// Whether the last definition of a column gives it a narrow integer type.
pub open spec fn defined_as_integer(stmts: Seq<RawStmt>, column: ColumnView) -> bool {
    match last_of(dump_types(stmts), column) {
        Some(t) => integer_type(t),
        None => false,
    }
}

fn push_elt_types(relation: &RangeVar, elt: &TableElt, out: &mut Vec<(Column, String)>)
    ensures
        type_views(final(out)@) == type_views(old(out)@) + elt_types(*relation, *elt),
{
    let ghost before = type_views(out@);
    match elt {
        TableElt::ColumnDef(def) => {
            match last_name(def) {
                Some(name) => {
                    let column: Column = relation_column(relation, &string_or_empty(&def.colname));
                    out.push((column, string_or_empty(name)));
                    assert(type_views(out@) =~= before + elt_types(*relation, *elt));
                },
                None => {
                    assert(type_views(out@) =~= before + elt_types(*relation, *elt));
                },
            }
        },
        TableElt::Other => {
            assert(type_views(out@) =~= before + elt_types(*relation, *elt));
        },
    }
}

fn push_create_types(create: &CreateStmt, relation: &RangeVar, out: &mut Vec<(Column, String)>)
    ensures
        type_views(final(out)@) == type_views(old(out)@) + create.table_elts@.flat_map(
            |e: TableElt| elt_types(*relation, e),
        ),
{
    let ghost f = |e: TableElt| elt_types(*relation, e);
    let ghost before = type_views(out@);
    let mut i: usize = 0;
    assert(create.table_elts@.take(0).flat_map(f) =~= Seq::<(ColumnView, Seq<char>)>::empty());
    while i < create.table_elts.len()
        invariant
            i <= create.table_elts.len(),
            f == (|e: TableElt| elt_types(*relation, e)),
            type_views(out@) == before + create.table_elts@.take(i as int).flat_map(f),
        decreases create.table_elts.len() - i,
    {
        push_elt_types(relation, &create.table_elts[i], out);
        proof {
            create.table_elts@.lemma_flat_map_take_append(f, i as int);
        }
        i += 1;
    }
    assert(create.table_elts@.take(create.table_elts@.len() as int) =~= create.table_elts@);
}

/// The types of all columns of the `CREATE TABLE` statements, in order. Where a
/// column is defined more than once, the last definition counts.
pub fn column_types(stmts: &Vec<RawStmt>) -> (out: Vec<(Column, String)>)
    ensures
        type_views(out@) == dump_types(stmts@),
{
    let ghost f = |s: RawStmt| stmt_types(s);
    let mut out: Vec<(Column, String)> = Vec::new();
    let mut i: usize = 0;
    assert(stmts@.take(0).flat_map(f) =~= Seq::<(ColumnView, Seq<char>)>::empty());
    assert(type_views(out@) =~= stmts@.take(0).flat_map(f));
    while i < stmts.len()
        invariant
            i <= stmts.len(),
            f == (|s: RawStmt| stmt_types(s)),
            type_views(out@) == stmts@.take(i as int).flat_map(f),
        decreases stmts.len() - i,
    {
        let ghost before = type_views(out@);
        match &stmts[i].node {
            Node::CreateStmt(create) => {
                match &create.relation {
                    Some(relation) => {
                        push_create_types(create, relation, &mut out);
                    },
                    None => {},
                }
            },
            _ => {},
        }
        proof {
            assert(type_views(out@) =~= before + stmt_types(stmts@[i as int]));
            stmts@.lemma_flat_map_take_append(f, i as int);
        }
        i += 1;
    }
    assert(stmts@.take(stmts@.len() as int) =~= stmts@);
    out
}

fn is_integer_column(types: &Vec<(Column, String)>, column: &Column) -> (b: bool)
    ensures
        b == match last_of(type_views(types@), column@) {
            Some(t) => integer_type(t),
            None => false,
        },
{
    let mut n: usize = types.len();
    assert(type_views(types@).take(n as int) =~= type_views(types@));
    while n > 0
        invariant
            n <= types.len(),
            last_of(type_views(types@), column@) == last_of(
                type_views(types@).take(n as int),
                column@,
            ),
        decreases n,
    {
        assert(type_views(types@).take(n as int).drop_last() =~= type_views(types@).take(n - 1));
        if types[n - 1].0.same(column) {
            return is_integer_type(types[n - 1].1.as_str());
        }
        n -= 1;
    }
    false
}

/// The columns that the keys of a constraint name.
pub open spec fn key_columns(relation: RangeVar, keys: Seq<Option<String>>) -> Seq<ColumnView> {
    keys.flat_map(
        |k: Option<String>|
            match k {
                Some(name) => seq![column_of(relation, name@)],
                None => Seq::<ColumnView>::empty(),
            },
    )
}

/// The columns that a command makes a primary key of.
pub open spec fn cmd_primary_keys(relation: RangeVar, cmd: AlterCmd) -> Seq<ColumnView> {
    match cmd {
        AlterCmd::AlterTableCmd(cmd) => match (cmd.subtype, cmd.def) {
            (AlterTableType::AddConstraint, CmdDef::Constraint(cons)) => if cons.contype
                == ConstrType::Primary {
                key_columns(relation, cons.keys@)
            } else {
                Seq::empty()
            },
            _ => Seq::empty(),
        },
        AlterCmd::Other => Seq::empty(),
    }
}

/// The columns that a statement makes a primary key of.
pub open spec fn stmt_primary_keys(stmt: RawStmt) -> Seq<ColumnView> {
    match stmt.node {
        Node::AlterTableStmt(alter) => match alter.relation {
            Some(relation) => alter.cmds@.flat_map(|c: AlterCmd| cmd_primary_keys(relation, c)),
            None => Seq::empty(),
        },
        _ => Seq::empty(),
    }
}

/// The primary key columns of a dump.
pub open spec fn dump_primary_keys(stmts: Seq<RawStmt>) -> Seq<ColumnView> {
    stmts.flat_map(|s: RawStmt| stmt_primary_keys(s))
}

/// The primary key columns of a dump that have a narrow integer type.
pub open spec fn integer_primary_keys(stmts: Seq<RawStmt>) -> Set<ColumnView> {
    Set::new(
        |c: ColumnView| dump_primary_keys(stmts).contains(c) && defined_as_integer(stmts, c),
    )
}

fn push_key_columns(relation: &RangeVar, keys: &Vec<Option<String>>, out: &mut Vec<Column>)
    ensures
        column_views(final(out)@) == column_views(old(out)@) + key_columns(*relation, keys@),
{
    let ghost f = |k: Option<String>|
        match k {
            Some(name) => seq![column_of(*relation, name@)],
            None => Seq::<ColumnView>::empty(),
        };
    let ghost before = column_views(out@);
    let mut i: usize = 0;
    assert(keys@.take(0).flat_map(f) =~= Seq::<ColumnView>::empty());
    while i < keys.len()
        invariant
            i <= keys.len(),
            f == (|k: Option<String>|
                match k {
                    Some(name) => seq![column_of(*relation, name@)],
                    None => Seq::<ColumnView>::empty(),
                }),
            column_views(out@) == before + keys@.take(i as int).flat_map(f),
        decreases keys.len() - i,
    {
        let ghost so_far = column_views(out@);
        match &keys[i] {
            Some(name) => {
                out.push(relation_column(relation, name));
            },
            None => {},
        }
        proof {
            assert(column_views(out@) =~= so_far + f(keys@[i as int]));
            keys@.lemma_flat_map_take_append(f, i as int);
        }
        i += 1;
    }
    assert(keys@.take(keys@.len() as int) =~= keys@);
}

fn push_cmd_primary_keys(relation: &RangeVar, cmd: &AlterCmd, out: &mut Vec<Column>)
    ensures
        column_views(final(out)@) == column_views(old(out)@) + cmd_primary_keys(*relation, *cmd),
{
    match cmd {
        AlterCmd::AlterTableCmd(cmd) => {
            if cmd.subtype == AlterTableType::AddConstraint {
                match &cmd.def {
                    CmdDef::Constraint(cons) => {
                        if cons.contype == ConstrType::Primary {
                            push_key_columns(relation, &cons.keys, out);
                            return ;
                        }
                    },
                    _ => {},
                }
            }
        },
        AlterCmd::Other => {},
    }
    assert(column_views(out@) =~= column_views(old(out)@) + cmd_primary_keys(*relation, *cmd));
}

fn primary_key_columns(stmts: &Vec<RawStmt>) -> (out: Vec<Column>)
    ensures
        column_views(out@) == dump_primary_keys(stmts@),
{
    let ghost f = |s: RawStmt| stmt_primary_keys(s);
    let mut out: Vec<Column> = Vec::new();
    let mut i: usize = 0;
    assert(stmts@.take(0).flat_map(f) =~= Seq::<ColumnView>::empty());
    assert(column_views(out@) =~= stmts@.take(0).flat_map(f));
    while i < stmts.len()
        invariant
            i <= stmts.len(),
            f == (|s: RawStmt| stmt_primary_keys(s)),
            column_views(out@) == stmts@.take(i as int).flat_map(f),
        decreases stmts.len() - i,
    {
        let ghost before = column_views(out@);
        match &stmts[i].node {
            Node::AlterTableStmt(alter) => {
                match &alter.relation {
                    Some(relation) => {
                        let ghost g = |c: AlterCmd| cmd_primary_keys(*relation, c);
                        let mut j: usize = 0;
                        assert(alter.cmds@.take(0).flat_map(g) =~= Seq::<ColumnView>::empty());
                        while j < alter.cmds.len()
                            invariant
                                j <= alter.cmds.len(),
                                g == (|c: AlterCmd| cmd_primary_keys(*relation, c)),
                                column_views(out@) == before + alter.cmds@.take(j as int).flat_map(
                                    g,
                                ),
                            decreases alter.cmds.len() - j,
                        {
                            push_cmd_primary_keys(relation, &alter.cmds[j], &mut out);
                            proof {
                                alter.cmds@.lemma_flat_map_take_append(g, j as int);
                            }
                            j += 1;
                        }
                        assert(alter.cmds@.take(alter.cmds@.len() as int) =~= alter.cmds@);
                    },
                    None => {},
                }
            },
            _ => {},
        }
        proof {
            assert(column_views(out@) =~= before + stmt_primary_keys(stmts@[i as int]));
            stmts@.lemma_flat_map_take_append(f, i as int);
        }
        i += 1;
    }
    assert(stmts@.take(stmts@.len() as int) =~= stmts@);
    out
}

/// Whether a column is in a list.
pub fn contains_column(set: &Vec<Column>, column: &Column) -> (found: bool)
    ensures
        found == column_views(set@).contains(column@),
{
    let mut i: usize = 0;
    while i < set.len()
        invariant
            i <= set.len(),
            forall|j: int| 0 <= j < i ==> (#[trigger] set@[j])@ != column@,
        decreases set.len() - i,
    {
        if set[i].same(column) {
            assert(column_views(set@)[i as int] == column@);
            return true;
        }
        i += 1;
    }
    assert forall|j: int| 0 <= j < column_views(set@).len() implies #[trigger] column_views(set@)[j]
        != column@ by {
        assert(set@[j]@ != column@);
    }
    false
}

fn insert_column(set: &mut Vec<Column>, column: Column)
    requires
        column_views(old(set)@).no_duplicates(),
    ensures
        column_views(final(set)@).no_duplicates(),
        forall|c: ColumnView|
            column_views(final(set)@).contains(c) <==> column_views(old(set)@).contains(c) || c
                == column@,
{
    let ghost before = column_views(set@);
    if contains_column(set, &column) {
        return ;
    }
    set.push(column);
    proof {
        let after = column_views(set@);
        assert(after =~= before.push(column@));
        assert forall|c: ColumnView| after.contains(c) <==> before.contains(c) || c == column@ by {
            if before.contains(c) {
                let k = before.index_of(c);
                assert(after[k] == c);
            }
            if c == column@ {
                assert(after[before.len() as int] == c);
            }
        }
        assert(after.no_duplicates()) by {
            assert forall|i: int, j: int|
                0 <= i < after.len() && 0 <= j < after.len() && i != j implies after[i]
                != after[j] by {
                if i == before.len() {
                    assert(before.contains(before[j]));
                } else if j == before.len() {
                    assert(before.contains(before[i]));
                }
            }
        }
    }
}

/// The columns that are part of a primary key and have a narrow integer type,
/// each once.
pub fn integer_primary_key_columns(stmts: &Vec<RawStmt>) -> (out: Vec<Column>)
    ensures
        column_views(out@).no_duplicates(),
        forall|c: ColumnView|
            column_views(out@).contains(c) <==> integer_primary_keys(stmts@).contains(c),
{
    let types: Vec<(Column, String)> = column_types(stmts);
    let keys: Vec<Column> = primary_key_columns(stmts);
    let mut out: Vec<Column> = Vec::new();
    let mut i: usize = 0;
    while i < keys.len()
        invariant
            i <= keys.len(),
            type_views(types@) == dump_types(stmts@),
            column_views(out@).no_duplicates(),
            forall|c: ColumnView| #[trigger]
                column_views(out@).contains(c) <==> column_views(keys@).take(i as int).contains(c)
                    && defined_as_integer(stmts@, c),
        decreases keys.len() - i,
    {
        let ghost before = column_views(keys@).take(i as int);
        let ghost after = column_views(keys@).take(i + 1);
        let ghost held = column_views(out@);
        if is_integer_column(&types, &keys[i]) {
            insert_column(&mut out, keys[i].copy());
        }
        proof {
            let key = keys@[i as int]@;
            assert(after =~= before.push(key));
            assert forall|c: ColumnView| #[trigger]
                column_views(out@).contains(c) <==> after.contains(c) && defined_as_integer(
                    stmts@,
                    c,
                ) by {
                vstd::seq_lib::lemma_seq_contains_after_push(before, key, c);
                assert(held.contains(c) <==> before.contains(c) && defined_as_integer(stmts@, c));
            }
        }
        i += 1;
    }
    proof {
        assert(column_views(keys@).take(keys@.len() as int) =~= column_views(keys@));
        assert forall|c: ColumnView|
            column_views(out@).contains(c) <==> #[trigger] integer_primary_keys(stmts@).contains(
                c,
            ) by {
            assert(column_views(out@).contains(c) <==> column_views(keys@).contains(c)
                && defined_as_integer(stmts@, c));
        }
    }
    out
}

/// The columns that a foreign key pairs up: the one pointed at, and the one that
/// points.
pub open spec fn paired_columns(
    pk_table: RangeVar,
    fk_table: RangeVar,
    pk_attr: Option<String>,
    fk_attr: Option<String>,
) -> Seq<(ColumnView, ColumnView)> {
    match (pk_attr, fk_attr) {
        (Some(pk), Some(fk)) => seq![(column_of(pk_table, pk@), column_of(fk_table, fk@))],
        _ => Seq::empty(),
    }
}

/// The pairs of a foreign key, as far as both lists go.
pub open spec fn attr_pairs(
    pk_attrs: Seq<Option<String>>,
    fk_attrs: Seq<Option<String>>,
) -> Seq<(Option<String>, Option<String>)> {
    let n = if pk_attrs.len() <= fk_attrs.len() {
        pk_attrs.len()
    } else {
        fk_attrs.len()
    };
    Seq::new(n, |i: int| (pk_attrs[i], fk_attrs[i]))
}

/// The pairs of columns of a foreign key constraint.
pub open spec fn constraint_pairs(fk_table: RangeVar, cons: Constraint) -> Seq<
    (ColumnView, ColumnView),
> {
    match (cons.contype, cons.pktable) {
        (ConstrType::Foreign, Some(pk_table)) => attr_pairs(
            cons.pk_attrs@,
            cons.fk_attrs@,
        ).flat_map(
            |p: (Option<String>, Option<String>)| paired_columns(pk_table, fk_table, p.0, p.1),
        ),
        _ => Seq::empty(),
    }
}

/// The pairs of columns that a command ties by a foreign key.
pub open spec fn cmd_foreign_keys(relation: RangeVar, cmd: AlterCmd) -> Seq<
    (ColumnView, ColumnView),
> {
    match cmd {
        AlterCmd::AlterTableCmd(cmd) => match (cmd.subtype, cmd.def) {
            (AlterTableType::AddConstraint, CmdDef::Constraint(cons)) => constraint_pairs(
                relation,
                cons,
            ),
            _ => Seq::empty(),
        },
        AlterCmd::Other => Seq::empty(),
    }
}

/// The pairs of columns that a statement ties by foreign keys.
pub open spec fn stmt_foreign_keys(stmt: RawStmt) -> Seq<(ColumnView, ColumnView)> {
    match stmt.node {
        Node::AlterTableStmt(alter) => match alter.relation {
            Some(relation) => alter.cmds@.flat_map(|c: AlterCmd| cmd_foreign_keys(relation, c)),
            None => Seq::empty(),
        },
        _ => Seq::empty(),
    }
}

/// The pairs of columns of a dump that foreign keys tie.
pub open spec fn dump_foreign_keys(stmts: Seq<RawStmt>) -> Seq<(ColumnView, ColumnView)> {
    stmts.flat_map(|s: RawStmt| stmt_foreign_keys(s))
}

/// The columns of a dump that point at an integer primary key.
pub open spec fn integer_foreign_keys(stmts: Seq<RawStmt>) -> Set<ColumnView> {
    Set::new(
        |c: ColumnView|
            exists|pk: ColumnView|
                #![trigger integer_primary_keys(stmts).contains(pk)]
                dump_foreign_keys(stmts).contains((pk, c)) && integer_primary_keys(stmts).contains(
                    pk,
                ),
    )
}

/// Each pair of a list of column pairs.
pub open spec fn pair_views(v: Seq<(Column, Column)>) -> Seq<(ColumnView, ColumnView)> {
    v.map_values(|p: (Column, Column)| (p.0@, p.1@))
}

fn push_constraint_pairs(
    fk_table: &RangeVar,
    cons: &Constraint,
    out: &mut Vec<(Column, Column)>,
)
    ensures
        pair_views(final(out)@) == pair_views(old(out)@) + constraint_pairs(*fk_table, *cons),
{
    let ghost before = pair_views(out@);
    if cons.contype != ConstrType::Foreign {
        assert(pair_views(out@) =~= before + constraint_pairs(*fk_table, *cons));
        return ;
    }
    match &cons.pktable {
        None => {
            assert(pair_views(out@) =~= before + constraint_pairs(*fk_table, *cons));
        },
        Some(pk_table) => {
            let ghost pairs = attr_pairs(cons.pk_attrs@, cons.fk_attrs@);
            let ghost f = |p: (Option<String>, Option<String>)|
                paired_columns(*pk_table, *fk_table, p.0, p.1);
            let mut i: usize = 0;
            assert(pairs.take(0).flat_map(f) =~= Seq::<(ColumnView, ColumnView)>::empty());
            while i < cons.pk_attrs.len() && i < cons.fk_attrs.len()
                invariant
                    i <= cons.pk_attrs.len(),
                    i <= cons.fk_attrs.len(),
                    pairs == attr_pairs(cons.pk_attrs@, cons.fk_attrs@),
                    f == (|p: (Option<String>, Option<String>)|
                        paired_columns(*pk_table, *fk_table, p.0, p.1)),
                    pair_views(out@) == before + pairs.take(i as int).flat_map(f),
                decreases cons.pk_attrs.len() - i,
            {
                let ghost so_far = pair_views(out@);
                match (&cons.pk_attrs[i], &cons.fk_attrs[i]) {
                    (Some(pk), Some(fk)) => {
                        out.push((relation_column(pk_table, pk), relation_column(fk_table, fk)));
                    },
                    _ => {},
                }
                proof {
                    assert(pair_views(out@) =~= so_far + f(pairs[i as int]));
                    pairs.lemma_flat_map_take_append(f, i as int);
                }
                i += 1;
            }
            assert(pairs.take(pairs.len() as int) =~= pairs);
        },
    }
}

fn push_cmd_foreign_keys(relation: &RangeVar, cmd: &AlterCmd, out: &mut Vec<(Column, Column)>)
    ensures
        pair_views(final(out)@) == pair_views(old(out)@) + cmd_foreign_keys(*relation, *cmd),
{
    match cmd {
        AlterCmd::AlterTableCmd(cmd) => {
            if cmd.subtype == AlterTableType::AddConstraint {
                match &cmd.def {
                    CmdDef::Constraint(cons) => {
                        push_constraint_pairs(relation, cons, out);
                        return ;
                    },
                    _ => {},
                }
            }
        },
        AlterCmd::Other => {},
    }
    assert(pair_views(out@) =~= pair_views(old(out)@) + cmd_foreign_keys(*relation, *cmd));
}

fn foreign_key_pairs(stmts: &Vec<RawStmt>) -> (out: Vec<(Column, Column)>)
    ensures
        pair_views(out@) == dump_foreign_keys(stmts@),
{
    let ghost f = |s: RawStmt| stmt_foreign_keys(s);
    let mut out: Vec<(Column, Column)> = Vec::new();
    let mut i: usize = 0;
    assert(stmts@.take(0).flat_map(f) =~= Seq::<(ColumnView, ColumnView)>::empty());
    assert(pair_views(out@) =~= stmts@.take(0).flat_map(f));
    while i < stmts.len()
        invariant
            i <= stmts.len(),
            f == (|s: RawStmt| stmt_foreign_keys(s)),
            pair_views(out@) == stmts@.take(i as int).flat_map(f),
        decreases stmts.len() - i,
    {
        let ghost before = pair_views(out@);
        match &stmts[i].node {
            Node::AlterTableStmt(alter) => {
                match &alter.relation {
                    Some(relation) => {
                        let ghost g = |c: AlterCmd| cmd_foreign_keys(*relation, c);
                        let mut j: usize = 0;
                        assert(alter.cmds@.take(0).flat_map(g) =~= Seq::<
                            (ColumnView, ColumnView),
                        >::empty());
                        while j < alter.cmds.len()
                            invariant
                                j <= alter.cmds.len(),
                                g == (|c: AlterCmd| cmd_foreign_keys(*relation, c)),
                                pair_views(out@) == before + alter.cmds@.take(j as int).flat_map(g),
                            decreases alter.cmds.len() - j,
                        {
                            push_cmd_foreign_keys(relation, &alter.cmds[j], &mut out);
                            proof {
                                alter.cmds@.lemma_flat_map_take_append(g, j as int);
                            }
                            j += 1;
                        }
                        assert(alter.cmds@.take(alter.cmds@.len() as int) =~= alter.cmds@);
                    },
                    None => {},
                }
            },
            _ => {},
        }
        proof {
            assert(pair_views(out@) =~= before + stmt_foreign_keys(stmts@[i as int]));
            stmts@.lemma_flat_map_take_append(f, i as int);
        }
        i += 1;
    }
    assert(stmts@.take(stmts@.len() as int) =~= stmts@);
    out
}

/// The columns that point at an integer primary key, each once.
pub fn integer_foreign_key_columns(stmts: &Vec<RawStmt>) -> (out: Vec<Column>)
    ensures
        column_views(out@).no_duplicates(),
        forall|c: ColumnView|
            column_views(out@).contains(c) <==> integer_foreign_keys(stmts@).contains(c),
{
    let primary: Vec<Column> = integer_primary_key_columns(stmts);
    let pairs: Vec<(Column, Column)> = foreign_key_pairs(stmts);
    let ghost all = pair_views(pairs@);
    let mut out: Vec<Column> = Vec::new();
    let mut i: usize = 0;
    while i < pairs.len()
        invariant
            i <= pairs.len(),
            all == pair_views(pairs@),
            forall|c: ColumnView|
                column_views(primary@).contains(c) <==> integer_primary_keys(stmts@).contains(c),
            column_views(out@).no_duplicates(),
            forall|c: ColumnView| #[trigger]
                column_views(out@).contains(c) <==> points_at(
                    all.take(i as int),
                    integer_primary_keys(stmts@),
                    c,
                ),
        decreases pairs.len() - i,
    {
        let ghost held = column_views(out@);
        if contains_column(&primary, &pairs[i].0) {
            insert_column(&mut out, pairs[i].1.copy());
        }
        proof {
            let keys = integer_primary_keys(stmts@);
            let before = all.take(i as int);
            let after = all.take(i + 1);
            let pair = all[i as int];
            assert(pair == (pairs@[i as int].0@, pairs@[i as int].1@));
            assert forall|c: ColumnView| #[trigger]
                column_views(out@).contains(c) <==> points_at(after, keys, c) by {
                assert(held.contains(c) <==> points_at(before, keys, c));
                if points_at(before, keys, c) {
                    let j = choose|j: int|
                        0 <= j < before.len() && (#[trigger] before[j]).1 == c && keys.contains(
                            before[j].0,
                        );
                    assert(after[j] == before[j]);
                }
                if points_at(after, keys, c) {
                    let j = choose|j: int|
                        0 <= j < after.len() && (#[trigger] after[j]).1 == c && keys.contains(
                            after[j].0,
                        );
                    if j < i {
                        assert(before[j] == after[j]);
                    }
                }
                if c == pair.1 && keys.contains(pair.0) {
                    assert(after[i as int] == pair);
                }
            }
        }
        i += 1;
    }
    proof {
        assert(all.take(all.len() as int) =~= all);
        let keys = integer_primary_keys(stmts@);
        assert forall|c: ColumnView|
            column_views(out@).contains(c) <==> #[trigger] integer_foreign_keys(stmts@).contains(
                c,
            ) by {
            assert(column_views(out@).contains(c) <==> points_at(all, keys, c));
            if points_at(all, keys, c) {
                let j = choose|j: int|
                    0 <= j < all.len() && (#[trigger] all[j]).1 == c && keys.contains(all[j].0);
                assert(all[j] == (all[j].0, c));
                assert(all.contains((all[j].0, c)));
            }
            if integer_foreign_keys(stmts@).contains(c) {
                let pk = choose|pk: ColumnView|
                    #![trigger keys.contains(pk)]
                    all.contains((pk, c)) && keys.contains(pk);
                let j = all.index_of((pk, c));
                assert(all[j].1 == c);
            }
        }
    }
    out
}

/// Whether a pair of the list ties a column to one of the keys.
spec fn points_at(
    pairs: Seq<(ColumnView, ColumnView)>,
    keys: Set<ColumnView>,
    c: ColumnView,
) -> bool {
    exists|j: int| 0 <= j < pairs.len() && (#[trigger] pairs[j]).1 == c && keys.contains(pairs[j].0)
}

/// The columns whose own keys make them `bigint`.
pub open spec fn converted_keys(stmts: Seq<RawStmt>) -> Set<ColumnView> {
    integer_primary_keys(stmts).union(integer_foreign_keys(stmts))
}

/// The integer primary keys and the columns that point at them.
pub fn columns_to_convert(stmts: &Vec<RawStmt>) -> (out: Vec<Column>)
    ensures
        column_views(out@).no_duplicates(),
        forall|c: ColumnView| column_views(out@).contains(c) <==> converted_keys(stmts@).contains(c),
{
    let mut out: Vec<Column> = integer_primary_key_columns(stmts);
    let foreign: Vec<Column> = integer_foreign_key_columns(stmts);
    let ghost primary = column_views(out@);
    let ghost all = column_views(foreign@);
    let mut i: usize = 0;
    while i < foreign.len()
        invariant
            i <= foreign.len(),
            all == column_views(foreign@),
            column_views(out@).no_duplicates(),
            forall|c: ColumnView| #[trigger]
                column_views(out@).contains(c) <==> primary.contains(c) || all.take(
                    i as int,
                ).contains(c),
        decreases foreign.len() - i,
    {
        let ghost held = column_views(out@);
        insert_column(&mut out, foreign[i].copy());
        proof {
            assert(all.take(i + 1) =~= all.take(i as int).push(all[i as int]));
            assert forall|c: ColumnView| #[trigger]
                column_views(out@).contains(c) <==> primary.contains(c) || all.take(
                    i + 1,
                ).contains(c) by {
                vstd::seq_lib::lemma_seq_contains_after_push(
                    all.take(i as int),
                    all[i as int],
                    c,
                );
                assert(held.contains(c) <==> primary.contains(c) || all.take(i as int).contains(c));
            }
        }
        i += 1;
    }
    proof {
        assert(all.take(all.len() as int) =~= all);
        assert forall|c: ColumnView|
            column_views(out@).contains(c) <==> #[trigger] converted_keys(stmts@).contains(c) by {
            assert(column_views(out@).contains(c) <==> primary.contains(c) || all.contains(c));
        }
    }
    out
}

} // verus!
