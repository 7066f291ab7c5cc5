//! The parts of a parsed schema dump that decide how it is restored.

use vstd::prelude::*;

use crate::text::str_eq;

verus! {

/// A reference to a relation.
#[derive(Debug)]
pub struct RangeVar {
    pub schemaname: Option<String>,
    pub relname: Option<String>,
    /// Whether the relation's partitions are meant too: no `ONLY`.
    pub inh: bool,
}

/// A column of a `CREATE TABLE`.
#[derive(Debug)]
pub struct ColumnDef {
    pub colname: Option<String>,
    /// The parts of the type's name, where there is a type. A part that is no
    /// string has no text.
    pub type_names: Option<Vec<Option<String>>>,
}

/// An element of a `CREATE TABLE`.
#[derive(Debug)]
pub enum TableElt {
    ColumnDef(ColumnDef),
    Other,
}

#[derive(Debug)]
pub struct CreateStmt {
    pub relation: Option<RangeVar>,
    /// Whether there is a `PARTITION BY`.
    pub partspec: bool,
    pub table_elts: Vec<TableElt>,
}

#[derive(Debug, Clone, Copy, PartialEq, Eq, Structural)]
pub enum ConstrType {
    Primary,
    NotNull,
    Null,
    Foreign,
    Other,
}

#[derive(Debug)]
pub struct Constraint {
    pub contype: ConstrType,
    pub keys: Vec<Option<String>>,
    pub pktable: Option<RangeVar>,
    pub pk_attrs: Vec<Option<String>>,
    pub fk_attrs: Vec<Option<String>>,
}

#[derive(Debug, Clone, Copy, PartialEq, Eq, Structural)]
pub enum AlterTableType {
    AddConstraint,
    AttachPartition,
    ColumnDefault,
    AddIdentity,
    ReplicaIdentity,
    Other,
}

/// What an `ALTER TABLE` command defines.
#[derive(Debug)]
pub enum CmdDef {
    Constraint(Constraint),
    /// The partition that is attached.
    PartitionCmd(Option<RangeVar>),
    Other,
}

#[derive(Debug)]
pub struct AlterTableCmd {
    pub subtype: AlterTableType,
    pub def: CmdDef,
}

#[derive(Debug)]
pub enum AlterCmd {
    AlterTableCmd(AlterTableCmd),
    Other,
}

#[derive(Debug, Clone, Copy, PartialEq, Eq, Structural)]
pub enum ObjectType {
    Index,
    Table,
    Publication,
    Other,
}

#[derive(Debug)]
pub struct AlterTableStmt {
    pub relation: Option<RangeVar>,
    pub objtype: ObjectType,
    pub cmds: Vec<AlterCmd>,
}

/// An option of an `ALTER SEQUENCE`.
#[derive(Debug)]
pub enum SeqOption {
    /// It names a column, such as the one that owns the sequence.
    Column(Column),
    Other,
}

#[derive(Debug)]
pub struct AlterSeqStmt {
    pub sequence: Option<RangeVar>,
    pub options: Vec<SeqOption>,
}

#[derive(Debug)]
pub struct IndexStmt {
    pub relation: Option<RangeVar>,
    pub idxname: String,
}

/// A statement of the dump.
#[derive(Debug)]
pub enum Node {
    CreateStmt(CreateStmt),
    CreateSeqStmt,
    CreateExtensionStmt,
    CreateSchemaStmt,
    AlterTableStmt(AlterTableStmt),
    CreateTrigStmt,
    CreatePublicationStmt {
        pubname: Option<String>,
    },
    AlterPublicationStmt,
    CreateSubscriptionStmt,
    AlterSubscriptionStmt,
    AlterSeqStmt(AlterSeqStmt),
    IndexStmt(IndexStmt),
    ViewStmt,
    CreateTableAsStmt,
    CreateFunctionStmt,
    AlterOwnerStmt {
        object_type: ObjectType,
    },
    CreateEnumStmt,
    CreateDomainStmt,
    CompositeTypeStmt,
    VariableSetStmt,
    SelectStmt,
    Other,
}

/// A statement and where it stands in the text, in bytes.
#[derive(Debug)]
pub struct RawStmt {
    pub node: Node,
    pub stmt_location: i32,
    pub stmt_len: i32,
}

/// A column of a table.
#[derive(Debug)]
pub struct Column {
    pub name: String,
    pub table: Option<String>,
    pub schema: Option<String>,
}

/// The contents of a [`Column`].
pub struct ColumnView {
    pub name: Seq<char>,
    pub table: Option<Seq<char>>,
    pub schema: Option<Seq<char>>,
}

/// The text of an optional string.
pub open spec fn opt_text(s: Option<String>) -> Option<Seq<char>> {
    match s {
        Some(s) => Some(s@),
        None => None,
    }
}

/// The text of an optional string, empty where there is none.
pub open spec fn text_or_empty(s: Option<String>) -> Seq<char> {
    match s {
        Some(s) => s@,
        None => Seq::empty(),
    }
}

/// Copies a string out, empty where there is none.
pub fn string_or_empty(s: &Option<String>) -> (out: String)
    ensures
        out@ == text_or_empty(*s),
{
    match s {
        Some(s) => s.clone(),
        None => {
            let out: String = String::new();
            assert(out@ =~= Seq::<char>::empty());
            out
        },
    }
}

fn opt_eq(a: &Option<String>, b: &Option<String>) -> (same: bool)
    ensures
        same == (opt_text(*a) == opt_text(*b)),
{
    match (a, b) {
        (Some(x), Some(y)) => str_eq(x.as_str(), y.as_str()),
        (None, None) => true,
        _ => false,
    }
}

impl View for Column {
    type V = ColumnView;

    open spec fn view(&self) -> ColumnView {
        ColumnView { name: self.name@, table: opt_text(self.table), schema: opt_text(self.schema) }
    }
}

impl Column {
    /// Whether two columns are the same.
    pub fn same(&self, other: &Column) -> (same: bool)
        ensures
            same == (self@ == other@),
    {
        str_eq(self.name.as_str(), other.name.as_str()) && opt_eq(&self.table, &other.table)
            && opt_eq(&self.schema, &other.schema)
    }

    /// A copy of the column.
    pub fn copy(&self) -> (out: Column)
        ensures
            out@ == self@,
    {
        Column {
            name: self.name.clone(),
            table: copy_opt(&self.table),
            schema: copy_opt(&self.schema),
        }
    }
}

fn copy_opt(s: &Option<String>) -> (out: Option<String>)
    ensures
        opt_text(out) == opt_text(*s),
{
    match s {
        Some(s) => Some(s.clone()),
        None => None,
    }
}

/// The name of a relation.
#[derive(Debug)]
pub struct TableName {
    pub schema: Option<String>,
    pub name: String,
}

/// The contents of a [`TableName`].
pub struct TableNameView {
    pub schema: Option<Seq<char>>,
    pub name: Seq<char>,
}

impl View for TableName {
    type V = TableNameView;

    open spec fn view(&self) -> TableNameView {
        TableNameView { schema: opt_text(self.schema), name: self.name@ }
    }
}

impl TableName {
    /// Whether two names are the same, the schema as it is written.
    pub fn same(&self, other: &TableName) -> (same: bool)
        ensures
            same == (self@ == other@),
    {
        str_eq(self.name.as_str(), other.name.as_str()) && opt_eq(&self.schema, &other.schema)
    }

    /// A copy of the name.
    pub fn copy(&self) -> (out: TableName)
        ensures
            out@ == self@,
    {
        TableName { schema: copy_opt(&self.schema), name: self.name.clone() }
    }
}

/// The schema of a relation, `public` where it is not written.
pub open spec fn schema_of(relation: RangeVar) -> Seq<char> {
    match relation.schemaname {
        Some(s) => s@,
        None => "public"@,
    }
}

/// The schema of a relation, `public` where it is not written.
pub fn schema_name(relation: &RangeVar) -> (out: String)
    ensures
        out@ == schema_of(*relation),
{
    match &relation.schemaname {
        Some(s) => s.clone(),
        None => "public".to_owned(),
    }
}

/// The name by which a relation is known among tables.
pub open spec fn table_name_of(relation: RangeVar) -> TableNameView {
    TableNameView {
        schema: opt_text(relation.schemaname),
        name: text_or_empty(relation.relname),
    }
}

/// The name by which a relation is known among tables.
pub fn table_name(relation: &RangeVar) -> (out: TableName)
    ensures
        out@ == table_name_of(*relation),
{
    TableName { schema: copy_opt(&relation.schemaname), name: string_or_empty(&relation.relname) }
}

/// A column of a relation, under the relation's schema.
pub open spec fn column_of(relation: RangeVar, name: Seq<char>) -> ColumnView {
    ColumnView {
        name,
        table: Some(text_or_empty(relation.relname)),
        schema: Some(schema_of(relation)),
    }
}

/// A column of a relation, under the relation's schema.
pub fn relation_column(relation: &RangeVar, name: &String) -> (out: Column)
    ensures
        out@ == column_of(*relation, name@),
{
    Column {
        name: name.clone(),
        table: Some(string_or_empty(&relation.relname)),
        schema: Some(schema_name(relation)),
    }
}

/// The integer types that are narrower than `bigint`.
pub open spec fn integer_type(name: Seq<char>) -> bool {
    ||| name == "int4"@
    ||| name == "int2"@
    ||| name == "serial"@
    ||| name == "smallserial"@
    ||| name == "integer"@
    ||| name == "smallint"@
}

/// Whether a type is an integer type narrower than `bigint`.
pub fn is_integer_type(name: &str) -> (b: bool)
    ensures
        b == integer_type(name@),
{
    str_eq(name, "int4") || str_eq(name, "int2") || str_eq(name, "serial") || str_eq(
        name,
        "smallserial",
    ) || str_eq(name, "integer") || str_eq(name, "smallint")
}

/// The last part of a type's name, where there is a type with a name: its text
/// where it is a string.
pub open spec fn last_type_name(def: ColumnDef) -> Option<Option<Seq<char>>> {
    match def.type_names {
        Some(names) => if names@.len() > 0 {
            Some(opt_text(names@.last()))
        } else {
            None
        },
        None => None,
    }
}

/// The last part of a type's name.
pub fn last_name(def: &ColumnDef) -> (out: Option<&Option<String>>)
    ensures
        match out {
            Some(s) => last_type_name(*def) == Some(opt_text(*s)),
            None => last_type_name(*def) == None::<Option<Seq<char>>>,
        },
{
    match &def.type_names {
        Some(names) => if names.len() > 0 {
            Some(&names[names.len() - 1])
        } else {
            None
        },
        None => None,
    }
}

} // verus!
