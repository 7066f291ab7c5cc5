//! Schema migration via `pg_dump`.
//!
//! The source is dumped, rewritten for a sharded destination, and the statements
//! of a given phase are applied to every shard of the destination.
//!
//! The whole schema is dumped at once: a section of it could miss what sharding
//! needs, such as the foreign keys that widen along with a primary key.

use vstd::prelude::*;
use vstd::string::StringSliceAdditionalSpecFns;
use vstd::utf8::{decode_utf8, encode_utf8, is_char_boundary};

use super::ast::{
    opt_text, schema_name, schema_of, string_or_empty, table_name, table_name_of, text_or_empty, AlterCmd,
    AlterSeqStmt, AlterTableCmd, AlterTableStmt, AlterTableType, CmdDef, Column, ColumnView,
    ConstrType, CreateStmt, IndexStmt, Node, ObjectType, RawStmt, SeqOption, TableElt, TableName,
    TableNameView,
};
use super::columns::{
    column_views, columns_to_convert, converted_keys, integer_foreign_key_columns,
    integer_foreign_keys, integer_primary_key_columns, integer_primary_keys, last_of,
};
use super::error::{SchemaSyncError, SchemaSyncErrorView};
use super::partitions::{
    becomes_bigint, column_in, dump_parents, dump_widths, parent_of, parent_views,
    partition_parents, partitioned_parent_column_types, should_convert_to_bigint, table_column,
    width_views, ColumnWidth,
};
use crate::text::{
    around, doubled, escape_identifier, literal, qualified, qualify, quote, quote_literal, quoted,
};

verus! {

/// A phase of a schema migration.
#[derive(Debug, Clone, Copy, PartialEq, Eq, Structural)]
pub enum SyncState {
    /// Before the data is copied.
    PreData,
    /// After the data is copied.
    PostData,
    /// When traffic moves over.
    Cutover,
}

/// A statement to run on a shard.
#[derive(Debug)]
pub struct Statement {
    pub sql: String,
    /// Whether what it makes may be there already.
    pub skip_if_exists: bool,
}

/// The contents of a [`Statement`].
pub struct StatementView {
    pub sql: Seq<char>,
    pub skip_if_exists: bool,
}

impl View for Statement {
    type V = StatementView;

    open spec fn view(&self) -> StatementView {
        StatementView { sql: self.sql@, skip_if_exists: self.skip_if_exists }
    }
}

/// A statement that must succeed.
pub open spec fn plain(sql: Seq<char>) -> StatementView {
    StatementView { sql, skip_if_exists: false }
}

/// A statement that may find what it makes.
pub open spec fn tolerant(sql: Seq<char>) -> StatementView {
    StatementView { sql, skip_if_exists: true }
}

impl Statement {
    /// A statement that must succeed.
    pub fn new(sql: String) -> (out: Statement)
        ensures
            out@ == plain(sql@),
    {
        Statement { sql, skip_if_exists: false }
    }

    /// The same statement, which may find what it makes.
    pub fn set_skip_if_exists(self) -> (out: Statement)
        ensures
            out@ == tolerant(self@.sql),
    {
        Statement { sql: self.sql, skip_if_exists: true }
    }
}

/// How a statement of the dump is rewritten before it is put back into words.
#[derive(Debug)]
pub enum Rewrite {
    /// It gets `IF NOT EXISTS`.
    IfNotExists,
    /// It gets `OR REPLACE`.
    Replace,
    /// A table gets `IF NOT EXISTS`, and the type of each marked element becomes
    /// `pg_catalog.int8`.
    CreateTable { bigint: Vec<bool> },
    /// An index gets `IF NOT EXISTS`, and `CONCURRENTLY` where that can be.
    Index { concurrent: bool },
}

/// The contents of a [`Rewrite`].
#[verifier::ext_equal]
pub enum RewriteView {
    IfNotExists,
    Replace,
    CreateTable { bigint: Seq<bool> },
    Index { concurrent: bool },
}

impl View for Rewrite {
    type V = RewriteView;

    open spec fn view(&self) -> RewriteView {
        match self {
            Rewrite::IfNotExists => RewriteView::IfNotExists,
            Rewrite::Replace => RewriteView::Replace,
            Rewrite::CreateTable { bigint } => RewriteView::CreateTable { bigint: bigint@ },
            Rewrite::Index { concurrent } => RewriteView::Index { concurrent: *concurrent },
        }
    }
}

/// The contents of an optional rewrite.
pub open spec fn rewrite_view(r: Option<Rewrite>) -> Option<RewriteView> {
    match r {
        Some(r) => Some(r@),
        None => None,
    }
}

/// The name of the table that a `CREATE TABLE` makes.
pub open spec fn created_table(create: CreateStmt) -> TableNameView {
    match create.relation {
        Some(relation) => table_name_of(relation),
        None => TableNameView { schema: None, name: Seq::empty() },
    }
}

/// Whether the type of an element of a `CREATE TABLE` becomes `bigint`.
pub open spec fn elt_becomes_bigint(
    stmts: Seq<RawStmt>,
    create: CreateStmt,
    elt: TableElt,
) -> bool {
    match elt {
        TableElt::ColumnDef(def) => def.type_names is Some && becomes_bigint(
            column_in(created_table(create), text_or_empty(def.colname)),
            def,
            converted_keys(stmts),
            last_of(dump_parents(stmts), created_table(create)),
            dump_widths(stmts, converted_keys(stmts)),
        ),
        TableElt::Other => false,
    }
}

/// For each element of a `CREATE TABLE`, whether its type becomes `bigint`.
pub open spec fn bigint_elts(stmts: Seq<RawStmt>, create: CreateStmt) -> Seq<bool> {
    create.table_elts@.map_values(|e: TableElt| elt_becomes_bigint(stmts, create, e))
}

/// Whether an index can be made concurrently: not on a partitioned table alone.
pub open spec fn concurrent_index(index: IndexStmt) -> bool {
    match index.relation {
        Some(relation) => relation.inh,
        None => false,
    }
}

/// The sequence and the column that owns it, where a statement names both.
pub open spec fn sequence_owner(alter: AlterSeqStmt) -> Option<(TableNameView, ColumnView)> {
    match alter.sequence {
        Some(sequence) => if alter.options@.len() > 0 {
            match alter.options@[0] {
                SeqOption::Column(column) => Some((table_name_of(sequence), column@)),
                SeqOption::Other => None,
            }
        } else {
            None
        },
        None => None,
    }
}

/// A name with its schema, `public` where there is none, as SQL writes it.
pub open spec fn written_name(schema: Option<Seq<char>>, name: Seq<char>) -> Seq<char> {
    qualified(
        doubled(
            match schema {
                Some(s) => s,
                None => "public"@,
            },
            '"',
        ),
        doubled(name, '"'),
    )
}

/// What sets a sequence to the largest value of the column that owns it, or to one
/// where there is none. The column has to be that of a table.
pub open spec fn setval(sequence: TableNameView, column: ColumnView) -> Option<Seq<char>> {
    match column.table {
        Some(table) => Some(
            "SELECT setval("@ + literal(written_name(sequence.schema, sequence.name))
                + ", COALESCE((SELECT MAX("@ + quoted(doubled(column.name, '"')) + ") FROM "@
                + written_name(column.schema, table) + "), 1), true)"@,
        ),
        None => None,
    }
}

/// How a statement is rewritten in a phase, where it is.
pub open spec fn rewrite_of(stmts: Seq<RawStmt>, node: Node, state: SyncState) -> Option<
    RewriteView,
> {
    match (node, state) {
        (Node::CreateStmt(create), SyncState::PreData) => Some(
            RewriteView::CreateTable { bigint: bigint_elts(stmts, create) },
        ),
        (Node::CreateSeqStmt, SyncState::PreData) => Some(RewriteView::IfNotExists),
        (Node::CreateExtensionStmt, SyncState::PreData) => Some(RewriteView::IfNotExists),
        (Node::CreateSchemaStmt, SyncState::PreData) => Some(RewriteView::IfNotExists),
        (Node::CreateTableAsStmt, SyncState::PreData) => Some(RewriteView::IfNotExists),
        (Node::CreateTrigStmt, SyncState::PreData) => Some(RewriteView::Replace),
        (Node::ViewStmt, SyncState::PreData) => Some(RewriteView::Replace),
        (Node::CreateFunctionStmt, SyncState::PreData) => Some(RewriteView::Replace),
        (Node::IndexStmt(index), SyncState::PostData) => Some(
            RewriteView::Index { concurrent: concurrent_index(index) },
        ),
        _ => None,
    }
}

/// The statements that a command of an `ALTER TABLE` gives in a phase: the whole
/// statement as it is written, or nothing.
///
/// Primary keys and NOT NULL come before the data, other constraints after it.
/// Partitions are attached to tables before the data and to indexes after it, when
/// those are there; so is the replica identity, which may name an index. Identity
/// columns are left out.
pub open spec fn cmd_statements(
    objtype: ObjectType,
    cmd: AlterCmd,
    sql: Seq<char>,
    state: SyncState,
) -> Seq<StatementView> {
    match cmd {
        AlterCmd::Other => Seq::empty(),
        AlterCmd::AlterTableCmd(cmd) => {
            let (phase, statement) = match cmd.subtype {
                AlterTableType::AddConstraint => match cmd.def {
                    CmdDef::Constraint(cons) => match cons.contype {
                        ConstrType::Primary => (Some(SyncState::PreData), tolerant(sql)),
                        ConstrType::NotNull => (Some(SyncState::PreData), tolerant(sql)),
                        ConstrType::Null => (Some(SyncState::PreData), tolerant(sql)),
                        ConstrType::Foreign => (Some(SyncState::PostData), tolerant(sql)),
                        ConstrType::Other => (Some(SyncState::PostData), tolerant(sql)),
                    },
                    _ => (None, tolerant(sql)),
                },
                AlterTableType::AttachPartition => if objtype == ObjectType::Index {
                    (Some(SyncState::PostData), tolerant(sql))
                } else {
                    (Some(SyncState::PreData), tolerant(sql))
                },
                AlterTableType::ColumnDefault => (Some(SyncState::PreData), plain(sql)),
                AlterTableType::AddIdentity => (None, plain(sql)),
                AlterTableType::ReplicaIdentity => (Some(SyncState::PostData), plain(sql)),
                AlterTableType::Other => (Some(SyncState::PreData), plain(sql)),
            };
            if phase == Some(state) {
                seq![statement]
            } else {
                Seq::empty()
            }
        },
    }
}

/// A rewritten statement, once it has been put into words.
pub open spec fn worded(text: Result<Seq<char>, Seq<char>>) -> Result<
    Seq<StatementView>,
    SchemaSyncErrorView,
> {
    match text {
        Ok(sql) => Ok(seq![plain(sql)]),
        Err(e) => Err(SchemaSyncErrorView::Parser(e)),
    }
}

/// What drops a publication.
pub open spec fn drop_publication(pubname: Option<String>) -> Seq<char> {
    "DROP PUBLICATION IF EXISTS \""@ + doubled(text_or_empty(pubname), '"') + "\""@
}

/// What drops an index.
pub open spec fn drop_index(index: IndexStmt) -> Seq<char> {
    "DROP INDEX IF EXISTS \""@ + (match index.relation {
        Some(relation) => schema_of(relation),
        None => "public"@,
    }) + "\".\""@ + index.idxname@ + "\""@
}

/// The statements that a statement of the dump, which reads `sql`, gives in a
/// phase. `text` is what its rewrite was put into words as, where it has one.
pub open spec fn node_statements(
    node: Node,
    sql: Seq<char>,
    state: SyncState,
    text: Result<Seq<char>, Seq<char>>,
) -> Result<Seq<StatementView>, SchemaSyncErrorView> {
    let pre = state == SyncState::PreData;
    match node {
        Node::CreateStmt(_) | Node::CreateSeqStmt | Node::CreateExtensionStmt
        | Node::CreateSchemaStmt | Node::CreateTrigStmt | Node::ViewStmt | Node::CreateTableAsStmt
        | Node::CreateFunctionStmt => if pre {
            worded(text)
        } else {
            Ok(Seq::empty())
        },
        Node::AlterTableStmt(alter) => Ok(
            alter.cmds@.flat_map(|c: AlterCmd| cmd_statements(alter.objtype, c, sql, state)),
        ),
        Node::CreatePublicationStmt { pubname } => if pre {
            Ok(seq![plain(drop_publication(pubname)), tolerant(sql)])
        } else {
            Ok(Seq::empty())
        },
        Node::AlterPublicationStmt | Node::CreateEnumStmt | Node::CreateDomainStmt
        | Node::CompositeTypeStmt => if pre {
            Ok(seq![tolerant(sql)])
        } else {
            Ok(Seq::empty())
        },
        Node::CreateSubscriptionStmt | Node::AlterSubscriptionStmt | Node::VariableSetStmt
        | Node::SelectStmt => Ok(Seq::empty()),
        Node::AlterSeqStmt(alter) => if state == SyncState::PostData {
            Ok(Seq::empty())
        } else {
            match sequence_owner(alter) {
                None => Err(SchemaSyncErrorView::MissingEntity),
                Some((sequence, column)) => if pre {
                    Ok(seq![plain(sql)])
                } else {
                    match setval(sequence, column) {
                        Some(set) => Ok(seq![plain(set)]),
                        None => Err(SchemaSyncErrorView::MissingEntity),
                    }
                },
            }
        },
        Node::IndexStmt(index) => if state == SyncState::PostData {
            match text {
                Ok(create) => Ok(seq![plain(drop_index(index)), plain(create)]),
                Err(e) => Err(SchemaSyncErrorView::Parser(e)),
            }
        } else {
            Ok(Seq::empty())
        },
        Node::AlterOwnerStmt { object_type } => if pre && object_type != ObjectType::Publication {
            Ok(seq![plain(sql)])
        } else {
            Ok(Seq::empty())
        },
        Node::Other => if pre {
            Ok(seq![plain(sql)])
        } else {
            Ok(Seq::empty())
        },
    }
}

/// The characters between two positions in bytes, where both are between
/// characters.
pub open spec fn byte_slice(text: Seq<char>, start: int, end: int) -> Option<Seq<char>> {
    let bytes = encode_utf8(text);
    if 0 <= start <= end <= bytes.len() && is_char_boundary(bytes, start) && is_char_boundary(
        bytes,
        end,
    ) {
        Some(decode_utf8(bytes.subrange(start, end)))
    } else {
        None
    }
}

/// The text of a statement.
pub open spec fn stmt_text(original: Seq<char>, stmt: RawStmt) -> Option<Seq<char>> {
    let end = stmt.stmt_location + stmt.stmt_len;
    if end > i32::MAX {
        None
    } else {
        byte_slice(original, stmt.stmt_location as int, end)
    }
}

/// What a rewritten statement was put into words as.
pub open spec fn text_view(r: Result<String, String>) -> Result<Seq<char>, Seq<char>> {
    match r {
        Ok(s) => Ok(s@),
        Err(e) => Err(e@),
    }
}

/// The statements of a dump in a phase, in order; or the first failure.
pub open spec fn dump_statements(
    original: Seq<char>,
    stmts: Seq<RawStmt>,
    state: SyncState,
    worded: Seq<Result<String, String>>,
) -> Result<Seq<StatementView>, SchemaSyncErrorView>
    decreases stmts.len(),
{
    if stmts.len() == 0 {
        Ok(Seq::empty())
    } else {
        match dump_statements(original, stmts.drop_last(), state, worded) {
            Err(e) => Err(e),
            Ok(before) => match stmt_text(original, stmts.last()) {
                None => Err(SchemaSyncErrorView::StmtOutOfBounds),
                Some(sql) => match node_statements(
                    stmts.last().node,
                    sql,
                    state,
                    text_view(worded[stmts.len() - 1]),
                ) {
                    Err(e) => Err(e),
                    Ok(new) => Ok(before + new),
                },
            },
        }
    }
}

/// Each statement of a list.
pub open spec fn statement_views(v: Seq<Statement>) -> Seq<StatementView> {
    v.map_values(|s: Statement| s@)
}

/// The characters between two positions in bytes.
fn slice(text: &str, start: usize, end: usize) -> (out: Option<String>)
    ensures
        match out {
            Some(s) => byte_slice(text@, start as int, end as int) == Some(s@),
            None => byte_slice(text@, start as int, end as int) is None,
        },
{
    proof {
        vstd::utf8::encode_utf8_valid_utf8(text@);
    }
    let ghost bytes = text.spec_bytes();
    if start > end || end > text.as_bytes().len() {
        return None;
    }
    if !text.is_char_boundary(start) || !text.is_char_boundary(end) {
        return None;
    }
    let (_, rest) = text.split_at(start);
    proof {
        vstd::utf8::encode_utf8_valid_utf8(rest@);
        let tail = rest.spec_bytes();
        assert(tail =~= bytes.subrange(start as int, bytes.len() as int));
        if end < bytes.len() {
            vstd::utf8::is_char_boundary_iff_not_is_continuation_byte(bytes, end as int);
            vstd::utf8::is_char_boundary_iff_not_is_continuation_byte(tail, end - start);
        } else {
            vstd::utf8::is_char_boundary_start_end_of_seq(tail);
        }
    }
    let (part, _) = rest.split_at(end - start);
    proof {
        assert(part.spec_bytes() =~= bytes.subrange(start as int, end as int));
        vstd::utf8::encode_utf8_decode_utf8(part@);
    }
    Some(part.to_owned())
}

fn statement_text(original: &str, stmt: &RawStmt) -> (out: Option<String>)
    ensures
        match out {
            Some(s) => stmt_text(original@, *stmt) == Some(s@),
            None => stmt_text(original@, *stmt) is None,
        },
{
    let end: i64 = stmt.stmt_location as i64 + stmt.stmt_len as i64;
    if stmt.stmt_location < 0 || end < 0 || end > i32::MAX as i64 {
        return None;
    }
    slice(original, stmt.stmt_location as usize, end as usize)
}

fn push(out: &mut Vec<Statement>, statement: Statement)
    ensures
        statement_views(final(out)@) == statement_views(old(out)@).push(statement@),
{
    out.push(statement);
    assert(statement_views(out@) =~= statement_views(old(out)@).push(statement@));
}

fn push_cmd(
    objtype: ObjectType,
    cmd: &AlterTableCmd,
    sql: &String,
    state: SyncState,
    out: &mut Vec<Statement>,
)
    ensures
        statement_views(final(out)@) == statement_views(old(out)@) + cmd_statements(
            objtype,
            AlterCmd::AlterTableCmd(*cmd),
            sql@,
            state,
        ),
{
    let pre: bool = state == SyncState::PreData;
    let post: bool = state == SyncState::PostData;
    let ghost before = statement_views(out@);
    match cmd.subtype {
        AlterTableType::AddConstraint => match &cmd.def {
            CmdDef::Constraint(cons) => match cons.contype {
                // A widened primary key has its type from the table.
                ConstrType::Primary | ConstrType::NotNull | ConstrType::Null => {
                    if pre {
                        push(out, Statement::new(sql.clone()).set_skip_if_exists());
                    }
                },
                ConstrType::Foreign | ConstrType::Other => {
                    if post {
                        push(out, Statement::new(sql.clone()).set_skip_if_exists());
                    }
                },
            },
            _ => {},
        },
        AlterTableType::AttachPartition => {
            // Indexes are made after the data, tables before it.
            if objtype == ObjectType::Index {
                if post {
                    push(out, Statement::new(sql.clone()).set_skip_if_exists());
                }
            } else if pre {
                push(out, Statement::new(sql.clone()).set_skip_if_exists());
            }
        },
        AlterTableType::ColumnDefault => {
            if pre {
                push(out, Statement::new(sql.clone()));
            }
        },
        AlterTableType::AddIdentity => {},
        // It may name an index, which is made after the data.
        AlterTableType::ReplicaIdentity => {
            if post {
                push(out, Statement::new(sql.clone()));
            }
        },
        AlterTableType::Other => {
            if pre {
                push(out, Statement::new(sql.clone()));
            }
        },
    }
    assert(statement_views(out@) =~= before + cmd_statements(
        objtype,
        AlterCmd::AlterTableCmd(*cmd),
        sql@,
        state,
    ));
}

fn push_alter(alter: &AlterTableStmt, sql: &String, state: SyncState, out: &mut Vec<Statement>)
    ensures
        statement_views(final(out)@) == statement_views(old(out)@) + alter.cmds@.flat_map(
            |c: AlterCmd| cmd_statements(alter.objtype, c, sql@, state),
        ),
{
    let ghost f = |c: AlterCmd| cmd_statements(alter.objtype, c, sql@, state);
    let ghost before = statement_views(out@);
    let mut i: usize = 0;
    assert(alter.cmds@.take(0).flat_map(f) =~= Seq::<StatementView>::empty());
    while i < alter.cmds.len()
        invariant
            i <= alter.cmds.len(),
            f == (|c: AlterCmd| cmd_statements(alter.objtype, c, sql@, state)),
            statement_views(out@) == before + alter.cmds@.take(i as int).flat_map(f),
        decreases alter.cmds.len() - i,
    {
        let ghost so_far = statement_views(out@);
        match &alter.cmds[i] {
            AlterCmd::AlterTableCmd(cmd) => {
                push_cmd(alter.objtype, cmd, sql, state, out);
            },
            AlterCmd::Other => {},
        }
        proof {
            assert(statement_views(out@) =~= so_far + f(alter.cmds@[i as int]));
            alter.cmds@.lemma_flat_map_take_append(f, i as int);
        }
        i += 1;
    }
    assert(alter.cmds@.take(alter.cmds@.len() as int) =~= alter.cmds@);
}

fn sequence_and_owner(alter: &AlterSeqStmt) -> (out: Option<(TableName, Column)>)
    ensures
        match out {
            Some(found) => sequence_owner(*alter) == Some((found.0@, found.1@)),
            None => sequence_owner(*alter) is None,
        },
{
    match &alter.sequence {
        Some(sequence) => {
            if alter.options.len() > 0 {
                match &alter.options[0] {
                    SeqOption::Column(column) => Some((table_name(sequence), column.copy())),
                    SeqOption::Other => None,
                }
            } else {
                None
            }
        },
        None => None,
    }
}

fn write_name(schema: &Option<String>, name: &str) -> (out: String)
    ensures
        out@ == written_name(opt_text(*schema), name@),
{
    let schema: String = match schema {
        Some(s) => escape_identifier(s.as_str()),
        None => escape_identifier("public"),
    };
    qualify(schema.as_str(), escape_identifier(name).as_str())
}

/// What sets a sequence to the largest value of the column that owns it, or to one
/// where there is none. The column has to be that of a table.
pub fn setval_from_column(sequence: &TableName, column: &Column) -> (out: Option<String>)
    ensures
        opt_text(out) == setval(sequence@, column@),
{
    match &column.table {
        Some(table) => {
            let mut out: String = "SELECT setval(".to_owned();
            let name: String = write_name(&sequence.schema, sequence.name.as_str());
            out.append(quote_literal(name.as_str()).as_str());
            out.append(", COALESCE((SELECT MAX(");
            out.append(quote(escape_identifier(column.name.as_str()).as_str()).as_str());
            out.append(") FROM ");
            out.append(write_name(&column.schema, table.as_str()).as_str());
            out.append("), 1), true)");
            Some(out)
        },
        None => None,
    }
}

fn drop_publication_sql(pubname: &Option<String>) -> (out: String)
    ensures
        out@ == drop_publication(*pubname),
{
    around(
        "DROP PUBLICATION IF EXISTS \"",
        escape_identifier(string_or_empty(pubname).as_str()).as_str(),
        "\"",
    )
}

fn drop_index_sql(index: &IndexStmt) -> (out: String)
    ensures
        out@ == drop_index(*index),
{
    let mut out: String = "DROP INDEX IF EXISTS \"".to_owned();
    match &index.relation {
        Some(relation) => out.append(schema_name(relation).as_str()),
        None => out.append("public"),
    }
    out.append("\".\"");
    out.append(index.idxname.as_str());
    out.append("\"");
    out
}

/// Adds the statements that one statement of the dump gives in a phase.
fn push_node(
    node: &Node,
    sql: String,
    state: SyncState,
    text: &Result<String, String>,
    out: &mut Vec<Statement>,
) -> (result: Result<(), SchemaSyncError>)
    ensures
        match (result, node_statements(*node, sql@, state, text_view(*text))) {
            (Ok(_), Ok(new)) => statement_views(final(out)@) == statement_views(old(out)@) + new,
            (Err(e), Err(expected)) => e@ == expected,
            _ => false,
        },
{
    let pre: bool = state == SyncState::PreData;
    let ghost before = statement_views(out@);
    let ghost expected = node_statements(*node, sql@, state, text_view(*text));
    match node {
        Node::CreateStmt(_)
        | Node::CreateSeqStmt
        | Node::CreateExtensionStmt
        | Node::CreateSchemaStmt
        | Node::CreateTrigStmt
        | Node::ViewStmt
        | Node::CreateTableAsStmt
        | Node::CreateFunctionStmt => {
            if pre {
                match text {
                    Ok(create) => push(out, Statement::new(create.clone())),
                    Err(e) => {
                        return Err(SchemaSyncError::Parser(e.clone()));
                    },
                }
            }
        },
        Node::AlterTableStmt(alter) => {
            push_alter(alter, &sql, state, out);
        },
        Node::CreatePublicationStmt { pubname } => {
            if pre {
                // So that it can be made again.
                push(out, Statement::new(drop_publication_sql(pubname)));
                push(out, Statement::new(sql).set_skip_if_exists());
            }
        },
        Node::AlterPublicationStmt
        | Node::CreateEnumStmt
        | Node::CreateDomainStmt
        | Node::CompositeTypeStmt => {
            if pre {
                push(out, Statement::new(sql).set_skip_if_exists());
            }
        },
        Node::CreateSubscriptionStmt
        | Node::AlterSubscriptionStmt
        | Node::VariableSetStmt
        | Node::SelectStmt => {},
        Node::AlterSeqStmt(alter) => {
            if state != SyncState::PostData {
                match sequence_and_owner(alter) {
                    None => {
                        return Err(SchemaSyncError::MissingEntity);
                    },
                    Some((sequence, column)) => {
                        if pre {
                            push(out, Statement::new(sql));
                        } else {
                            match setval_from_column(&sequence, &column) {
                                Some(set) => push(out, Statement::new(set)),
                                None => {
                                    return Err(SchemaSyncError::MissingEntity);
                                },
                            }
                        }
                    },
                }
            }
        },
        Node::IndexStmt(index) => {
            if state == SyncState::PostData {
                match text {
                    Ok(create) => {
                        push(out, Statement::new(drop_index_sql(index)));
                        push(out, Statement::new(create.clone()));
                    },
                    Err(e) => {
                        return Err(SchemaSyncError::Parser(e.clone()));
                    },
                }
            }
        },
        Node::AlterOwnerStmt { object_type } => {
            if pre && *object_type != ObjectType::Publication {
                push(out, Statement::new(sql));
            }
        },
        Node::Other => {
            if pre {
                push(out, Statement::new(sql));
            }
        },
    }
    proof {
        if let Ok(new) = expected {
            assert(statement_views(out@) =~= before + new);
        }
    }
    Ok(())
}

/// A parsed dump that every phase of one migration uses.
#[derive(Debug)]
pub struct PgDumpOutput {
    pub stmts: Vec<RawStmt>,
    /// The text that was parsed, which statements are taken from as they are
    /// written.
    pub original: String,
}

impl PgDumpOutput {
    /// The columns that are part of a primary key and have a narrow integer type,
    /// each once.
    pub fn integer_primary_key_columns(&self) -> (out: Vec<Column>)
        ensures
            column_views(out@).no_duplicates(),
            forall|c: ColumnView|
                column_views(out@).contains(c) <==> integer_primary_keys(self.stmts@).contains(c),
    {
        integer_primary_key_columns(&self.stmts)
    }

    /// The columns that point at an integer primary key, each once.
    pub fn integer_foreign_key_columns(&self) -> (out: Vec<Column>)
        ensures
            column_views(out@).no_duplicates(),
            forall|c: ColumnView|
                column_views(out@).contains(c) <==> integer_foreign_keys(self.stmts@).contains(c),
    {
        integer_foreign_key_columns(&self.stmts)
    }

    fn bigint_elements(
        create: &CreateStmt,
        convert: &Vec<Column>,
        parents: &Vec<(TableName, TableName)>,
        widths: &Vec<ColumnWidth>,
        stmts: Ghost<Seq<RawStmt>>,
    ) -> (out: Vec<bool>)
        requires
            column_views(convert@).to_set() == converted_keys(stmts@),
            parent_views(parents@) == dump_parents(stmts@),
            width_views(widths@) == dump_widths(stmts@, converted_keys(stmts@)),
        ensures
            out@ == bigint_elts(stmts@, *create),
    {
        let table: TableName = match &create.relation {
            Some(relation) => table_name(relation),
            None => {
                let name: String = String::new();
                assert(name@ =~= Seq::<char>::empty());
                TableName { schema: None, name }
            },
        };
        let parent: Option<&TableName> = parent_of(parents, &table);
        let mut out: Vec<bool> = Vec::new();
        let mut i: usize = 0;
        while i < create.table_elts.len()
            invariant
                i <= create.table_elts.len(),
                column_views(convert@).to_set() == converted_keys(stmts@),
                width_views(widths@) == dump_widths(stmts@, converted_keys(stmts@)),
                table@ == created_table(*create),
                match parent {
                    Some(p) => last_of(dump_parents(stmts@), table@) == Some(p@),
                    None => last_of(dump_parents(stmts@), table@) is None,
                },
                out@ == bigint_elts(stmts@, *create).take(i as int),
            decreases create.table_elts.len() - i,
        {
            let bigint: bool = match &create.table_elts[i] {
                TableElt::ColumnDef(def) => {
                    let name: String = string_or_empty(&def.colname);
                    let column: Column = table_column(&table, &name);
                    def.type_names.is_some() && should_convert_to_bigint(
                        &column,
                        def,
                        convert,
                        parent,
                        widths,
                    )
                },
                TableElt::Other => false,
            };
            let ghost all = bigint_elts(stmts@, *create);
            assert(bigint == all[i as int]);
            out.push(bigint);
            assert(all.take(i + 1) =~= all.take(i as int).push(all[i as int]));
            i += 1;
        }
        assert(bigint_elts(stmts@, *create).take(create.table_elts@.len() as int) =~= bigint_elts(
            stmts@,
            *create,
        ));
        out
    }

    /// For each statement of the dump, how it is to be rewritten in a phase, where
    /// it is.
    pub fn rewrites(&self, state: SyncState) -> (out: Vec<Option<Rewrite>>)
        ensures
            out@.len() == self.stmts@.len(),
            forall|i: int|
                0 <= i < out@.len() ==> rewrite_view(#[trigger] out@[i]) == rewrite_of(
                    self.stmts@,
                    self.stmts@[i].node,
                    state,
                ),
    {
        let convert: Vec<Column> = columns_to_convert(&self.stmts);
        proof {
            assert(column_views(convert@).to_set() =~= converted_keys(self.stmts@)) by {
                assert forall|c: ColumnView| column_views(convert@).to_set().contains(c)
                    <==> converted_keys(self.stmts@).contains(c) by {
                    assert(column_views(convert@).contains(c) <==> converted_keys(
                        self.stmts@,
                    ).contains(c));
                }
            }
        }
        let widths: Vec<ColumnWidth> = partitioned_parent_column_types(&self.stmts, &convert);
        let parents: Vec<(TableName, TableName)> = partition_parents(&self.stmts);
        let mut out: Vec<Option<Rewrite>> = Vec::new();
        let mut i: usize = 0;
        while i < self.stmts.len()
            invariant
                i <= self.stmts.len(),
                column_views(convert@).to_set() == converted_keys(self.stmts@),
                parent_views(parents@) == dump_parents(self.stmts@),
                width_views(widths@) == dump_widths(self.stmts@, converted_keys(self.stmts@)),
                out@.len() == i,
                forall|j: int|
                    0 <= j < i ==> rewrite_view(#[trigger] out@[j]) == rewrite_of(
                        self.stmts@,
                        self.stmts@[j].node,
                        state,
                    ),
            decreases self.stmts.len() - i,
        {
            let rewrite: Option<Rewrite> = match (&self.stmts[i].node, state) {
                (Node::CreateStmt(create), SyncState::PreData) => Some(
                    Rewrite::CreateTable {
                        bigint: Self::bigint_elements(
                            create,
                            &convert,
                            &parents,
                            &widths,
                            Ghost(self.stmts@),
                        ),
                    },
                ),
                (Node::CreateSeqStmt, SyncState::PreData) => Some(Rewrite::IfNotExists),
                (Node::CreateExtensionStmt, SyncState::PreData) => Some(Rewrite::IfNotExists),
                (Node::CreateSchemaStmt, SyncState::PreData) => Some(Rewrite::IfNotExists),
                (Node::CreateTableAsStmt, SyncState::PreData) => Some(Rewrite::IfNotExists),
                (Node::CreateTrigStmt, SyncState::PreData) => Some(Rewrite::Replace),
                (Node::ViewStmt, SyncState::PreData) => Some(Rewrite::Replace),
                (Node::CreateFunctionStmt, SyncState::PreData) => Some(Rewrite::Replace),
                (Node::IndexStmt(index), SyncState::PostData) => Some(
                    Rewrite::Index {
                        concurrent: match &index.relation {
                            Some(relation) => relation.inh,
                            None => false,
                        },
                    },
                ),
                _ => None,
            };
            assert(rewrite_view(rewrite) == rewrite_of(
                self.stmts@,
                self.stmts@[i as int].node,
                state,
            ));
            out.push(rewrite);
            i += 1;
        }
        out
    }

    /// The statements of the dump that belong to a phase, rewritten. `worded` holds,
    /// for each statement of the dump, what its rewrite was put into words as, or
    /// why it was not; it is read only where there is a rewrite.
    pub fn statements(&self, state: SyncState, worded: &Vec<Result<String, String>>) -> (out:
        Result<Vec<Statement>, SchemaSyncError>)
        requires
            worded@.len() == self.stmts@.len(),
        ensures
            match (out, dump_statements(self.original@, self.stmts@, state, worded@)) {
                (Ok(v), Ok(expected)) => statement_views(v@) == expected,
                (Err(e), Err(expected)) => e@ == expected,
                _ => false,
            },
    {
        let mut out: Vec<Statement> = Vec::new();
        let mut i: usize = 0;
        assert(statement_views(out@) =~= Seq::<StatementView>::empty());
        while i < self.stmts.len()
            invariant
                i <= self.stmts.len(),
                worded@.len() == self.stmts@.len(),
                dump_statements(self.original@, self.stmts@.take(i as int), state, worded@) == Ok::<
                    Seq<StatementView>,
                    SchemaSyncErrorView,
                >(statement_views(out@)),
            decreases self.stmts.len() - i,
        {
            proof {
                let next = self.stmts@.take(i + 1);
                assert(next.drop_last() =~= self.stmts@.take(i as int));
                assert(next.last() == self.stmts@[i as int]);
            }
            match statement_text(self.original.as_str(), &self.stmts[i]) {
                None => {
                    proof {
                        lemma_first_failure(
                            self.original@,
                            self.stmts@,
                            state,
                            worded@,
                            i + 1,
                        );
                    }
                    return Err(SchemaSyncError::StmtOutOfBounds);
                },
                Some(sql) => match push_node(
                    &self.stmts[i].node,
                    sql,
                    state,
                    &worded[i],
                    &mut out,
                ) {
                    Err(e) => {
                        proof {
                            lemma_first_failure(
                                self.original@,
                                self.stmts@,
                                state,
                                worded@,
                                i + 1,
                            );
                        }
                        return Err(e);
                    },
                    Ok(_) => {},
                },
            }
            i += 1;
        }
        assert(self.stmts@.take(self.stmts@.len() as int) =~= self.stmts@);
        Ok(out)
    }
}

/// Once a statement fails, the dump does.
proof fn lemma_first_failure(
    original: Seq<char>,
    stmts: Seq<RawStmt>,
    state: SyncState,
    worded: Seq<Result<String, String>>,
    n: int,
)
    requires
        0 <= n <= stmts.len(),
        dump_statements(original, stmts.take(n), state, worded) is Err,
    ensures
        dump_statements(original, stmts, state, worded) == dump_statements(
            original,
            stmts.take(n),
            state,
            worded,
        ),
    decreases stmts.len(),
{
    if n == stmts.len() {
        assert(stmts.take(n) =~= stmts);
    } else {
        assert(stmts.drop_last().take(n) =~= stmts.take(n));
        lemma_first_failure(original, stmts.drop_last(), state, worded, n);
    }
}

} // verus!
