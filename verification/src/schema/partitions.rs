//! Partitioned tables of a dump: which partition belongs to which parent, and
//! which columns a partition has to widen along with its parent.

use vstd::prelude::*;

use super::ast::{
    integer_type, is_integer_type, last_name, last_type_name, string_or_empty, table_name,
    table_name_of, text_or_empty, AlterCmd, AlterTableType, CmdDef, Column, ColumnDef, ColumnView,
    CreateStmt, Node, RangeVar, RawStmt, TableElt, TableName, TableNameView,
};
use super::columns::{column_views, contains_column, last_of};
use crate::text::str_eq;

verus! {

/// Each name of a list.
pub open spec fn name_views(v: Seq<TableName>) -> Seq<TableNameView> {
    v.map_values(|t: TableName| t@)
}

/// The tables that a statement declares as partitioned.
pub open spec fn stmt_partitioned(stmt: RawStmt) -> Seq<TableNameView> {
    match stmt.node {
        Node::CreateStmt(create) => match create.relation {
            Some(relation) => if create.partspec {
                seq![table_name_of(relation)]
            } else {
                Seq::empty()
            },
            None => Seq::empty(),
        },
        _ => Seq::empty(),
    }
}

/// The partitioned tables of a dump.
pub open spec fn dump_partitioned(stmts: Seq<RawStmt>) -> Seq<TableNameView> {
    stmts.flat_map(|s: RawStmt| stmt_partitioned(s))
}

/// The tables of a dump with a `PARTITION BY`.
pub fn partitioned_tables(stmts: &Vec<RawStmt>) -> (out: Vec<TableName>)
    ensures
        name_views(out@) == dump_partitioned(stmts@),
{
    let ghost f = |s: RawStmt| stmt_partitioned(s);
    let mut out: Vec<TableName> = Vec::new();
    let mut i: usize = 0;
    assert(stmts@.take(0).flat_map(f) =~= Seq::<TableNameView>::empty());
    assert(name_views(out@) =~= stmts@.take(0).flat_map(f));
    while i < stmts.len()
        invariant
            i <= stmts.len(),
            f == (|s: RawStmt| stmt_partitioned(s)),
            name_views(out@) == stmts@.take(i as int).flat_map(f),
        decreases stmts.len() - i,
    {
        let ghost before = name_views(out@);
        match &stmts[i].node {
            Node::CreateStmt(create) => {
                match &create.relation {
                    Some(relation) => {
                        if create.partspec {
                            out.push(table_name(relation));
                        }
                    },
                    None => {},
                }
            },
            _ => {},
        }
        proof {
            assert(name_views(out@) =~= before + stmt_partitioned(stmts@[i as int]));
            stmts@.lemma_flat_map_take_append(f, i as int);
        }
        i += 1;
    }
    assert(stmts@.take(stmts@.len() as int) =~= stmts@);
    out
}

fn contains_name(names: &Vec<TableName>, name: &TableName) -> (found: bool)
    ensures
        found == name_views(names@).contains(name@),
{
    let mut i: usize = 0;
    while i < names.len()
        invariant
            i <= names.len(),
            forall|j: int| 0 <= j < i ==> (#[trigger] names@[j])@ != name@,
        decreases names.len() - i,
    {
        if names[i].same(name) {
            assert(name_views(names@)[i as int] == name@);
            return true;
        }
        i += 1;
    }
    assert forall|j: int| 0 <= j < name_views(names@).len() implies #[trigger] name_views(names@)[j]
        != name@ by {
        assert(names@[j]@ != name@);
    }
    false
}

/// The partition that a command attaches, with its parent.
pub open spec fn cmd_parents(parent: RangeVar, cmd: AlterCmd) -> Seq<
    (TableNameView, TableNameView),
> {
    match cmd {
        AlterCmd::AlterTableCmd(cmd) => match (cmd.subtype, cmd.def) {
            (AlterTableType::AttachPartition, CmdDef::PartitionCmd(Some(child))) => seq![
                (table_name_of(child), table_name_of(parent)),
            ],
            _ => Seq::empty(),
        },
        AlterCmd::Other => Seq::empty(),
    }
}

/// The partitions that a statement attaches, with their parent.
pub open spec fn stmt_parents(stmt: RawStmt) -> Seq<(TableNameView, TableNameView)> {
    match stmt.node {
        Node::AlterTableStmt(alter) => match alter.relation {
            Some(parent) => alter.cmds@.flat_map(|c: AlterCmd| cmd_parents(parent, c)),
            None => Seq::empty(),
        },
        _ => Seq::empty(),
    }
}

/// The partitions of a dump, each with its parent.
pub open spec fn dump_parents(stmts: Seq<RawStmt>) -> Seq<(TableNameView, TableNameView)> {
    stmts.flat_map(|s: RawStmt| stmt_parents(s))
}

/// Each pair of a list of partitions with their parents.
pub open spec fn parent_views(v: Seq<(TableName, TableName)>) -> Seq<
    (TableNameView, TableNameView),
> {
    v.map_values(|p: (TableName, TableName)| (p.0@, p.1@))
}

fn push_cmd_parents(parent: &RangeVar, cmd: &AlterCmd, out: &mut Vec<(TableName, TableName)>)
    ensures
        parent_views(final(out)@) == parent_views(old(out)@) + cmd_parents(*parent, *cmd),
{
    match cmd {
        AlterCmd::AlterTableCmd(cmd) => {
            if cmd.subtype == AlterTableType::AttachPartition {
                match &cmd.def {
                    CmdDef::PartitionCmd(Some(child)) => {
                        out.push((table_name(child), table_name(parent)));
                    },
                    _ => {},
                }
            }
        },
        AlterCmd::Other => {},
    }
    assert(parent_views(out@) =~= parent_views(old(out)@) + cmd_parents(*parent, *cmd));
}

/// The partitions that `ATTACH PARTITION` ties to a parent. Where a table is
/// attached more than once, the last parent counts.
pub fn partition_parents(stmts: &Vec<RawStmt>) -> (out: Vec<(TableName, TableName)>)
    ensures
        parent_views(out@) == dump_parents(stmts@),
{
    let ghost f = |s: RawStmt| stmt_parents(s);
    let mut out: Vec<(TableName, TableName)> = Vec::new();
    let mut i: usize = 0;
    assert(stmts@.take(0).flat_map(f) =~= Seq::<(TableNameView, TableNameView)>::empty());
    assert(parent_views(out@) =~= stmts@.take(0).flat_map(f));
    while i < stmts.len()
        invariant
            i <= stmts.len(),
            f == (|s: RawStmt| stmt_parents(s)),
            parent_views(out@) == stmts@.take(i as int).flat_map(f),
        decreases stmts.len() - i,
    {
        let ghost before = parent_views(out@);
        match &stmts[i].node {
            Node::AlterTableStmt(alter) => {
                match &alter.relation {
                    Some(parent) => {
                        let ghost g = |c: AlterCmd| cmd_parents(*parent, c);
                        let mut j: usize = 0;
                        assert(alter.cmds@.take(0).flat_map(g) =~= Seq::<
                            (TableNameView, TableNameView),
                        >::empty());
                        while j < alter.cmds.len()
                            invariant
                                j <= alter.cmds.len(),
                                g == (|c: AlterCmd| cmd_parents(*parent, c)),
                                parent_views(out@) == before + alter.cmds@.take(j as int).flat_map(
                                    g,
                                ),
                            decreases alter.cmds.len() - j,
                        {
                            push_cmd_parents(parent, &alter.cmds[j], &mut out);
                            proof {
                                alter.cmds@.lemma_flat_map_take_append(g, j as int);
                            }
                            j += 1;
                        }
                        assert(alter.cmds@.take(alter.cmds@.len() as int) =~= alter.cmds@);
                    },
                    None => {},
                }
            },
            _ => {},
        }
        proof {
            assert(parent_views(out@) =~= before + stmt_parents(stmts@[i as int]));
            stmts@.lemma_flat_map_take_append(f, i as int);
        }
        i += 1;
    }
    assert(stmts@.take(stmts@.len() as int) =~= stmts@);
    out
}

/// The last parent that a table was attached to.
pub fn parent_of<'a>(parents: &'a Vec<(TableName, TableName)>, table: &TableName) -> (out: Option<
    &'a TableName,
>)
    ensures
        match out {
            Some(p) => last_of(parent_views(parents@), table@) == Some(p@),
            None => last_of(parent_views(parents@), table@) == None::<TableNameView>,
        },
{
    let mut n: usize = parents.len();
    assert(parent_views(parents@).take(n as int) =~= parent_views(parents@));
    while n > 0
        invariant
            n <= parents.len(),
            last_of(parent_views(parents@), table@) == last_of(
                parent_views(parents@).take(n as int),
                table@,
            ),
        decreases n,
    {
        assert(parent_views(parents@).take(n as int).drop_last() =~= parent_views(parents@).take(
            n - 1,
        ));
        if parents[n - 1].0.same(table) {
            return Some(&parents[n - 1].1);
        }
        n -= 1;
    }
    None
}

/// A column of a table, under the schema that the table's name gives, `public`
/// where it gives none.
pub open spec fn column_in(table: TableNameView, name: Seq<char>) -> ColumnView {
    ColumnView {
        name,
        table: Some(table.name),
        schema: Some(
            match table.schema {
                Some(s) => s,
                None => "public"@,
            },
        ),
    }
}

/// A column of a table, under the schema that the table's name gives.
pub fn table_column(table: &TableName, name: &String) -> (out: Column)
    ensures
        out@ == column_in(table@, name@),
{
    Column {
        name: name.clone(),
        table: Some(table.name.clone()),
        schema: Some(
            match &table.schema {
                Some(s) => s.clone(),
                None => "public".to_owned(),
            },
        ),
    }
}

/// Whether a column of a partitioned table is a `bigint` in the end, where it is
/// one or an `int4`.
pub open spec fn elt_width(
    table: TableNameView,
    converted: Set<ColumnView>,
    elt: TableElt,
) -> Seq<((TableNameView, Seq<char>), bool)> {
    match elt {
        TableElt::ColumnDef(def) => {
            let name = text_or_empty(def.colname);
            if converted.contains(column_in(table, name)) {
                seq![((table, name), true)]
            } else {
                match last_type_name(def) {
                    Some(Some(t)) => if t == "int4"@ {
                        seq![((table, name), false)]
                    } else if t == "int8"@ {
                        seq![((table, name), true)]
                    } else {
                        Seq::empty()
                    },
                    _ => Seq::empty(),
                }
            }
        },
        TableElt::Other => Seq::empty(),
    }
}

/// The widths of the integer columns that a statement gives a partitioned table.
pub open spec fn stmt_widths(
    partitioned: Seq<TableNameView>,
    converted: Set<ColumnView>,
    stmt: RawStmt,
) -> Seq<((TableNameView, Seq<char>), bool)> {
    match stmt.node {
        Node::CreateStmt(create) => match create.relation {
            Some(relation) => if partitioned.contains(table_name_of(relation)) {
                create.table_elts@.flat_map(
                    |e: TableElt| elt_width(table_name_of(relation), converted, e),
                )
            } else {
                Seq::empty()
            },
            None => Seq::empty(),
        },
        _ => Seq::empty(),
    }
}

/// The widths of the integer columns of all partitioned tables of a dump.
pub open spec fn dump_widths(stmts: Seq<RawStmt>, converted: Set<ColumnView>) -> Seq<
    ((TableNameView, Seq<char>), bool),
> {
    stmts.flat_map(|s: RawStmt| stmt_widths(dump_partitioned(stmts), converted, s))
}

/// A column of a partitioned table, and whether it is a `bigint` in the end.
#[derive(Debug)]
pub struct ColumnWidth {
    pub table: TableName,
    pub column: String,
    pub int8: bool,
}

/// Each entry of a list of widths.
pub open spec fn width_views(v: Seq<ColumnWidth>) -> Seq<((TableNameView, Seq<char>), bool)> {
    v.map_values(|w: ColumnWidth| ((w.table@, w.column@), w.int8))
}

/// A list of columns that stands for a set.
pub open spec fn lists(columns: Seq<Column>, set: Set<ColumnView>) -> bool {
    forall|c: ColumnView| #[trigger] column_views(columns).contains(c) <==> set.contains(c)
}

fn push_elt_width(
    table: &TableName,
    convert: &Vec<Column>,
    elt: &TableElt,
    out: &mut Vec<ColumnWidth>,
    converted: Ghost<Set<ColumnView>>,
)
    requires
        lists(convert@, converted@),
    ensures
        width_views(final(out)@) == width_views(old(out)@) + elt_width(table@, converted@, *elt),
{
    let ghost before = width_views(out@);
    match elt {
        TableElt::ColumnDef(def) => {
            let name: String = string_or_empty(&def.colname);
            let column: Column = table_column(table, &name);
            if contains_column(convert, &column) {
                out.push(ColumnWidth { table: table.copy(), column: name, int8: true });
            } else {
                match last_name(def) {
                    Some(Some(t)) => {
                        if str_eq(t.as_str(), "int4") {
                            out.push(ColumnWidth { table: table.copy(), column: name, int8: false });
                        } else if str_eq(t.as_str(), "int8") {
                            out.push(ColumnWidth { table: table.copy(), column: name, int8: true });
                        }
                    },
                    _ => {},
                }
            }
        },
        TableElt::Other => {},
    }
    assert(width_views(out@) =~= before + elt_width(table@, converted@, *elt));
}

fn push_create_widths(
    table: &TableName,
    convert: &Vec<Column>,
    elts: &Vec<TableElt>,
    out: &mut Vec<ColumnWidth>,
    converted: Ghost<Set<ColumnView>>,
)
    requires
        lists(convert@, converted@),
    ensures
        width_views(final(out)@) == width_views(old(out)@) + elts@.flat_map(
            |e: TableElt| elt_width(table@, converted@, e),
        ),
{
    let ghost f = |e: TableElt| elt_width(table@, converted@, e);
    let ghost before = width_views(out@);
    let mut i: usize = 0;
    assert(elts@.take(0).flat_map(f) =~= Seq::<((TableNameView, Seq<char>), bool)>::empty());
    while i < elts.len()
        invariant
            i <= elts.len(),
            lists(convert@, converted@),
            f == (|e: TableElt| elt_width(table@, converted@, e)),
            width_views(out@) == before + elts@.take(i as int).flat_map(f),
        decreases elts.len() - i,
    {
        push_elt_width(table, convert, &elts[i], out, converted);
        proof {
            elts@.lemma_flat_map_take_append(f, i as int);
        }
        i += 1;
    }
    assert(elts@.take(elts@.len() as int) =~= elts@);
}

/// The integer columns of partitioned tables, and whether each is a `bigint`
/// once the keys among them have been widened. Where a column is defined more
/// than once, the last definition counts.
pub fn partitioned_parent_column_types(stmts: &Vec<RawStmt>, convert: &Vec<Column>) -> (out: Vec<
    ColumnWidth,
>)
    ensures
        width_views(out@) == dump_widths(stmts@, column_views(convert@).to_set()),
{
    let ghost converted = column_views(convert@).to_set();
    let partitioned: Vec<TableName> = partitioned_tables(stmts);
    let ghost f = |s: RawStmt| stmt_widths(dump_partitioned(stmts@), converted, s);
    let mut out: Vec<ColumnWidth> = Vec::new();
    let mut i: usize = 0;
    assert(stmts@.take(0).flat_map(f) =~= Seq::<((TableNameView, Seq<char>), bool)>::empty());
    assert(width_views(out@) =~= stmts@.take(0).flat_map(f));
    while i < stmts.len()
        invariant
            i <= stmts.len(),
            lists(convert@, converted),
            name_views(partitioned@) == dump_partitioned(stmts@),
            f == (|s: RawStmt| stmt_widths(dump_partitioned(stmts@), converted, s)),
            width_views(out@) == stmts@.take(i as int).flat_map(f),
        decreases stmts.len() - i,
    {
        let ghost before = width_views(out@);
        match &stmts[i].node {
            Node::CreateStmt(create) => {
                match &create.relation {
                    Some(relation) => {
                        let table: TableName = table_name(relation);
                        if contains_name(&partitioned, &table) {
                            push_create_widths(
                                &table,
                                convert,
                                &create.table_elts,
                                &mut out,
                                Ghost(converted),
                            );
                        }
                    },
                    None => {},
                }
            },
            _ => {},
        }
        proof {
            assert(width_views(out@) =~= before + f(stmts@[i as int]));
            stmts@.lemma_flat_map_take_append(f, i as int);
        }
        i += 1;
    }
    assert(stmts@.take(stmts@.len() as int) =~= stmts@);
    out
}

fn width_of(widths: &Vec<ColumnWidth>, table: &TableName, column: &str) -> (out: Option<bool>)
    ensures
        out == last_of(width_views(widths@), (table@, column@)),
{
    let mut n: usize = widths.len();
    assert(width_views(widths@).take(n as int) =~= width_views(widths@));
    while n > 0
        invariant
            n <= widths.len(),
            last_of(width_views(widths@), (table@, column@)) == last_of(
                width_views(widths@).take(n as int),
                (table@, column@),
            ),
        decreases n,
    {
        assert(width_views(widths@).take(n as int).drop_last() =~= width_views(widths@).take(n - 1));
        if widths[n - 1].table.same(table) && str_eq(widths[n - 1].column.as_str(), column) {
            return Some(widths[n - 1].int8);
        }
        n -= 1;
    }
    None
}

/// Whether a column becomes `bigint`: its own key makes it one, or it is a
/// narrow integer in a partition whose parent has a `bigint` there.
pub open spec fn becomes_bigint(
    column: ColumnView,
    def: ColumnDef,
    converted: Set<ColumnView>,
    parent: Option<TableNameView>,
    widths: Seq<((TableNameView, Seq<char>), bool)>,
) -> bool {
    ||| converted.contains(column)
    ||| match (parent, last_type_name(def)) {
        (Some(p), Some(Some(t))) => last_of(widths, (p, column.name)) == Some(true)
            && integer_type(t),
        _ => false,
    }
}

/// Whether a column becomes `bigint`.
pub fn should_convert_to_bigint(
    column: &Column,
    def: &ColumnDef,
    convert: &Vec<Column>,
    parent: Option<&TableName>,
    widths: &Vec<ColumnWidth>,
) -> (b: bool)
    ensures
        b == becomes_bigint(
            column@,
            *def,
            column_views(convert@).to_set(),
            match parent {
                Some(p) => Some(p@),
                None => None,
            },
            width_views(widths@),
        ),
{
    if contains_column(convert, column) {
        return true;
    }
    match parent {
        None => false,
        Some(parent) => match width_of(widths, parent, column.name.as_str()) {
            Some(true) => match last_name(def) {
                Some(Some(t)) => is_integer_type(t.as_str()),
                _ => false,
            },
            _ => false,
        },
    }
}

} // verus!
