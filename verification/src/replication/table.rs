//! Tables of a publication, and the statements that apply their changes.

use vstd::prelude::*;

use super::error::{TableValidationError, TableValidationErrorKind};
use super::presence::NonIdentityColumnsPresence;
use super::tuple::Oid;
use crate::assoc::KeyEq;
use crate::schema::ast::opt_text;
use crate::text::{
    decimal, decimal_string, join, joined, qualified, qualify, quote, quoted, str_eq, texts,
};

verus! {

/// A table of a publication. A partition names its parent.
#[derive(Debug)]
pub struct PublicationTable {
    pub schema: String,
    pub name: String,
    pub attributes: String,
    pub parent_schema: String,
    pub parent_name: String,
}

impl Default for PublicationTable {
    fn default() -> (out: PublicationTable)
        ensures
            out.schema@ == Seq::<char>::empty(),
            out.name@ == Seq::<char>::empty(),
            out.attributes@ == Seq::<char>::empty(),
            out.parent_schema@ == Seq::<char>::empty(),
            out.parent_name@ == Seq::<char>::empty(),
    {
        PublicationTable {
            schema: String::new(),
            name: String::new(),
            attributes: String::new(),
            parent_schema: String::new(),
            parent_name: String::new(),
        }
    }
}

impl Clone for PublicationTable {
    fn clone(&self) -> (out: PublicationTable)
        ensures
            out == *self,
    {
        PublicationTable {
            schema: self.schema.clone(),
            name: self.name.clone(),
            attributes: self.attributes.clone(),
            parent_schema: self.parent_schema.clone(),
            parent_name: self.parent_name.clone(),
        }
    }
}

/// The contents of a [`PublicationTable`].
pub struct PublicationTableView {
    pub schema: Seq<char>,
    pub name: Seq<char>,
    pub attributes: Seq<char>,
    pub parent_schema: Seq<char>,
    pub parent_name: Seq<char>,
}

impl View for PublicationTable {
    type V = PublicationTableView;

    open spec fn view(&self) -> PublicationTableView {
        PublicationTableView {
            schema: self.schema@,
            name: self.name@,
            attributes: self.attributes@,
            parent_schema: self.parent_schema@,
            parent_name: self.parent_name@,
        }
    }
}

impl PublicationTableView {
    /// The schema that rows go to: the parent's, where there is a parent.
    pub open spec fn destination_schema(self) -> Seq<char> {
        if self.parent_schema.len() == 0 {
            self.schema
        } else {
            self.parent_schema
        }
    }

    /// The table that rows go to: the parent, where there is one.
    pub open spec fn destination_name(self) -> Seq<char> {
        if self.parent_name.len() == 0 {
            self.name
        } else {
            self.parent_name
        }
    }

    /// The table's own name, with its schema.
    pub open spec fn text(self) -> Seq<char> {
        qualified(self.schema, self.name)
    }

    /// The name of the table that rows go to, with its schema.
    pub open spec fn destination(self) -> Seq<char> {
        qualified(self.destination_schema(), self.destination_name())
    }
}

impl PublicationTable {
    /// The schema that rows go to.
    pub fn destination_schema(&self) -> (out: &str)
        ensures
            out@ == self@.destination_schema(),
    {
        if self.parent_schema.as_str().is_empty() {
            self.schema.as_str()
        } else {
            self.parent_schema.as_str()
        }
    }

    /// The table that rows go to.
    pub fn destination_name(&self) -> (out: &str)
        ensures
            out@ == self@.destination_name(),
    {
        if self.parent_name.as_str().is_empty() {
            self.name.as_str()
        } else {
            self.parent_name.as_str()
        }
    }

    /// The table's own name, with its schema.
    pub fn to_text(&self) -> (out: String)
        ensures
            out@ == self@.text(),
    {
        qualify(self.schema.as_str(), self.name.as_str())
    }

    /// The name of the table that rows go to, with its schema.
    pub fn destination(&self) -> (out: String)
        ensures
            out@ == self@.destination(),
    {
        qualify(self.destination_schema(), self.destination_name())
    }

    /// Whether two tables are the same in every part.
    pub fn same(&self, other: &PublicationTable) -> (same: bool)
        ensures
            same == (self@ == other@),
    {
        str_eq(self.schema.as_str(), other.schema.as_str()) && str_eq(
            self.name.as_str(),
            other.name.as_str(),
        ) && str_eq(self.attributes.as_str(), other.attributes.as_str()) && str_eq(
            self.parent_schema.as_str(),
            other.parent_schema.as_str(),
        ) && str_eq(self.parent_name.as_str(), other.parent_name.as_str())
    }
}

/// A schema and a name.
#[derive(Debug)]
pub struct Key {
    pub schema: String,
    pub name: String,
}

/// The contents of a [`Key`].
pub struct KeyView {
    pub schema: Seq<char>,
    pub name: Seq<char>,
}

impl View for Key {
    type V = KeyView;

    open spec fn view(&self) -> KeyView {
        KeyView { schema: self.schema@, name: self.name@ }
    }
}

impl Key {
    /// The name with its schema.
    pub fn to_text(&self) -> (out: String)
        ensures
            out@ == qualified(self@.schema, self@.name),
    {
        qualify(self.schema.as_str(), self.name.as_str())
    }
}

impl KeyEq for Key {
    fn key_eq(&self, other: &Self) -> (same: bool) {
        str_eq(self.schema.as_str(), other.schema.as_str()) && str_eq(
            self.name.as_str(),
            other.name.as_str(),
        )
    }
}

/// How Postgres tells the rows of a table apart in the stream.
#[derive(Debug)]
pub struct ReplicaIdentity {
    pub oid: Oid,
    pub identity: String,
    pub kind: String,
}

/// A position in the write-ahead log.
#[derive(Debug, Clone, Copy, PartialEq, Eq, Structural)]
pub struct Lsn {
    pub lsn: i64,
}

impl Lsn {
    /// The position as a number.
    pub fn from_i64(lsn: i64) -> (out: Lsn)
        ensures
            out.lsn == lsn,
    {
        Lsn { lsn }
    }
}

impl Default for Lsn {
    fn default() -> (out: Lsn)
        ensures
            out.lsn == 0,
    {
        Lsn { lsn: 0 }
    }
}

/// A column of a table in a publication.
#[derive(Debug)]
pub struct PublicationTableColumn {
    pub oid: i32,
    pub name: String,
    pub type_oid: Oid,
    /// Whether the column is part of the replica identity.
    pub identity: bool,
}

/// A table whose rows are copied and replicated.
#[derive(Debug)]
pub struct Table {
    pub publication: String,
    pub table: PublicationTable,
    pub identity: ReplicaIdentity,
    pub columns: Vec<PublicationTableColumn>,
    /// The position up to which the table was copied.
    pub lsn: Lsn,
    /// The column that has to be NULL for a row to be copied and replicated.
    pub null_filter_column: Option<String>,
}

/// The contents of a [`Table`].
#[verifier::ext_equal]
pub struct TableView {
    pub publication: Seq<char>,
    pub table: PublicationTableView,
    pub identity_oid: Oid,
    pub identity: Seq<char>,
    pub identity_kind: Seq<char>,
    pub columns: Seq<PublicationTableColumn>,
    pub lsn: Lsn,
    pub null_filter_column: Option<Seq<char>>,
}

impl View for Table {
    type V = TableView;

    open spec fn view(&self) -> TableView {
        TableView {
            publication: self.publication@,
            table: self.table@,
            identity_oid: self.identity.oid,
            identity: self.identity.identity@,
            identity_kind: self.identity.kind@,
            columns: self.columns@,
            lsn: self.lsn,
            null_filter_column: opt_text(self.null_filter_column),
        }
    }
}

impl Clone for Table {
    fn clone(&self) -> (out: Table)
        ensures
            out@ == self@,
    {
        let mut columns: Vec<PublicationTableColumn> = Vec::new();
        let mut i: usize = 0;
        while i < self.columns.len()
            invariant
                i <= self.columns.len(),
                columns@ == self.columns@.take(i as int),
            decreases self.columns.len() - i,
        {
            let column: &PublicationTableColumn = &self.columns[i];
            columns.push(
                PublicationTableColumn {
                    oid: column.oid,
                    name: column.name.clone(),
                    type_oid: column.type_oid,
                    identity: column.identity,
                },
            );
            assert(columns@ =~= self.columns@.take(i + 1));
            i += 1;
        }
        assert(self.columns@.take(self.columns@.len() as int) =~= self.columns@);
        Table {
            publication: self.publication.clone(),
            table: self.table.clone(),
            identity: ReplicaIdentity {
                oid: self.identity.oid,
                identity: self.identity.identity.clone(),
                kind: self.identity.kind.clone(),
            },
            columns,
            lsn: self.lsn,
            null_filter_column: match &self.null_filter_column {
                Some(column) => Some(column.clone()),
                None => None,
            },
        }
    }
}

/// A parameter of a prepared statement, counted from one.
pub open spec fn placeholder(n: nat) -> Seq<char> {
    "$"@ + decimal(n)
}

fn placeholder_string(n: u128) -> (out: String)
    ensures
        out@ == placeholder(n as nat),
{
    let mut out: String = "$".to_owned();
    out.append(decimal_string(n).as_str());
    out
}

/// `"name" = $n`
pub open spec fn equation(name: Seq<char>, n: nat) -> Seq<char> {
    quoted(name) + " = "@ + placeholder(n)
}

fn equation_string(name: &str, n: u128) -> (out: String)
    ensures
        out@ == equation(name@, n as nat),
{
    let mut out: String = quote(name);
    out.append(" = ");
    out.append(placeholder_string(n).as_str());
    out
}

/// `"name" IS NOT DISTINCT FROM $n`
pub open spec fn sameness(name: Seq<char>, n: nat) -> Seq<char> {
    quoted(name) + " IS NOT DISTINCT FROM "@ + placeholder(n)
}

fn sameness_string(name: &str, n: u128) -> (out: String)
    ensures
        out@ == sameness(name@, n as nat),
{
    let mut out: String = quote(name);
    out.append(" IS NOT DISTINCT FROM ");
    out.append(placeholder_string(n).as_str());
    out
}

/// The quoted names of some columns.
pub open spec fn quoted_names(columns: Seq<PublicationTableColumn>) -> Seq<Seq<char>> {
    columns.map_values(|c: PublicationTableColumn| quoted(c.name@))
}

/// The quoted names of the identity columns.
pub open spec fn identity_names(columns: Seq<PublicationTableColumn>) -> Seq<Seq<char>>
    decreases columns.len(),
{
    if columns.len() == 0 {
        Seq::empty()
    } else if columns.last().identity {
        identity_names(columns.drop_last()).push(quoted(columns.last().name@))
    } else {
        identity_names(columns.drop_last())
    }
}

/// The parameters of a whole row.
pub open spec fn placeholders(n: nat) -> Seq<Seq<char>> {
    Seq::new(n, |i: int| placeholder((i + 1) as nat))
}

/// An equation for each column that is (or is not) part of the identity, with
/// the column's own position as the parameter.
pub open spec fn positioned(columns: Seq<PublicationTableColumn>, identity: bool) -> Seq<Seq<char>>
    decreases columns.len(),
{
    if columns.len() == 0 {
        Seq::empty()
    } else if columns.last().identity == identity {
        positioned(columns.drop_last(), identity).push(equation(columns.last().name@, columns.len()))
    } else {
        positioned(columns.drop_last(), identity)
    }
}

/// An equation for each identity column, the parameters counted anew.
pub open spec fn renumbered(columns: Seq<PublicationTableColumn>) -> Seq<Seq<char>>
    decreases columns.len(),
{
    if columns.len() == 0 {
        Seq::empty()
    } else {
        let before = renumbered(columns.drop_last());
        if columns.last().identity {
            before.push(equation(columns.last().name@, before.len() + 1))
        } else {
            before
        }
    }
}

/// A comparison for each column, with the column's position as the parameter.
pub open spec fn compared(columns: Seq<PublicationTableColumn>) -> Seq<Seq<char>> {
    Seq::new(columns.len(), |i: int| sameness(columns[i].name@, (i + 1) as nat))
}

/// An equation for each column, the parameters counted behind those of a whole
/// row.
pub open spec fn assigned_behind(columns: Seq<PublicationTableColumn>) -> Seq<Seq<char>> {
    Seq::new(
        columns.len(),
        |i: int| equation(columns[i].name@, (columns.len() + i + 1) as nat),
    )
}

/// How many columns are not part of the identity.
pub open spec fn non_identity_count(columns: Seq<PublicationTableColumn>) -> nat
    decreases columns.len(),
{
    if columns.len() == 0 {
        0
    } else if columns.last().identity {
        non_identity_count(columns.drop_last())
    } else {
        non_identity_count(columns.drop_last()) + 1
    }
}

/// Whether the last column of a list has a value, where `mask` tells which of
/// the columns outside the identity have one.
pub open spec fn last_present(columns: Seq<PublicationTableColumn>, mask: Seq<bool>) -> bool {
    columns.last().identity || {
        let k = non_identity_count(columns.drop_last());
        k < mask.len() && mask[k as int]
    }
}

/// How many columns have a value.
pub open spec fn present_count(columns: Seq<PublicationTableColumn>, mask: Seq<bool>) -> nat
    decreases columns.len(),
{
    if columns.len() == 0 {
        0
    } else if last_present(columns, mask) {
        present_count(columns.drop_last(), mask) + 1
    } else {
        present_count(columns.drop_last(), mask)
    }
}

/// An equation for each column that has a value and is (or is not) part of the
/// identity, the parameters counted over the columns that have a value.
pub open spec fn present_equations(
    columns: Seq<PublicationTableColumn>,
    mask: Seq<bool>,
    identity: bool,
) -> Seq<Seq<char>>
    decreases columns.len(),
{
    if columns.len() == 0 {
        Seq::empty()
    } else {
        let before = present_equations(columns.drop_last(), mask, identity);
        if last_present(columns, mask) && columns.last().identity == identity {
            before.push(equation(columns.last().name@, present_count(columns, mask)))
        } else {
            before
        }
    }
}

/// An equation for each column that has a value, the parameters counted over
/// those columns and behind those of a whole row.
pub open spec fn present_behind(
    columns: Seq<PublicationTableColumn>,
    mask: Seq<bool>,
    offset: nat,
) -> Seq<Seq<char>>
    decreases columns.len(),
{
    if columns.len() == 0 {
        Seq::empty()
    } else {
        let before = present_behind(columns.drop_last(), mask, offset);
        if last_present(columns, mask) {
            before.push(equation(columns.last().name@, offset + present_count(columns, mask)))
        } else {
            before
        }
    }
}

impl TableView {
    /// The table that rows go to.
    pub open spec fn target(self) -> Seq<char> {
        self.table.destination()
    }

    /// Inserts a whole row.
    pub open spec fn insert_sql(self) -> Seq<char> {
        "INSERT INTO "@ + self.target() + " ("@ + joined(quoted_names(self.columns), ", "@)
            + ") VALUES ("@ + joined(placeholders(self.columns.len()), ", "@) + ")"@
    }

    /// Inserts a whole row, or overwrites the one with the same identity.
    pub open spec fn upsert_sql(self) -> Seq<char> {
        let head = self.insert_sql() + " ON CONFLICT ("@ + joined(
            identity_names(self.columns),
            ", "@,
        ) + ")"@;
        let set = positioned(self.columns, false);
        if set.len() == 0 {
            head + " DO NOTHING"@
        } else {
            head + " DO UPDATE SET "@ + joined(set, ", "@)
        }
    }

    /// Updates the row with the same identity from a whole row.
    pub open spec fn update_sql(self) -> Seq<char> {
        "UPDATE "@ + self.target() + " SET "@ + joined(positioned(self.columns, false), ", "@)
            + " WHERE "@ + joined(positioned(self.columns, true), " AND "@)
    }

    /// Deletes the row with a given identity.
    pub open spec fn delete_sql(self) -> Seq<char> {
        "DELETE FROM "@ + self.target() + " WHERE "@ + joined(
            renumbered(self.columns),
            " AND "@,
        )
    }

    /// Updates the columns that have a value.
    pub open spec fn update_partial_sql(self, mask: Seq<bool>) -> Seq<char> {
        "UPDATE "@ + self.target() + " SET "@ + joined(
            present_equations(self.columns, mask, false),
            ", "@,
        ) + " WHERE "@ + joined(present_equations(self.columns, mask, true), " AND "@)
    }

    /// Picks one row that is the same as a given one in every column.
    pub open spec fn one_row(self) -> Seq<char> {
        " WHERE ctid = (SELECT ctid FROM "@ + self.target() + " WHERE "@ + joined(
            compared(self.columns),
            " AND "@,
        ) + " LIMIT 1)"@
    }

    /// Deletes one row that is the same as a given one.
    pub open spec fn delete_full_identity_sql(self) -> Seq<char> {
        "DELETE FROM "@ + self.target() + self.one_row()
    }

    /// Updates one row that is the same as a given one.
    pub open spec fn update_full_identity_sql(self) -> Seq<char> {
        "UPDATE "@ + self.target() + " SET "@ + joined(assigned_behind(self.columns), ", "@)
            + self.one_row()
    }

    /// Updates those columns that have a value in one row that is the same as a
    /// given one.
    pub open spec fn update_full_identity_partial_set_sql(self, mask: Seq<bool>) -> Seq<char> {
        "UPDATE "@ + self.target() + " SET "@ + joined(
            present_behind(self.columns, mask, self.columns.len()),
            ", "@,
        ) + self.one_row()
    }

    /// Inserts a whole row unless that breaks a unique constraint.
    pub open spec fn upsert_full_identity_sql(self) -> Seq<char> {
        self.insert_sql() + " ON CONFLICT DO NOTHING"@
    }

    /// Whether the replica identity is FULL.
    pub open spec fn full_identity(self) -> bool {
        self.identity == "f"@
    }

    /// Whether any column is part of the replica identity.
    pub open spec fn has_identity(self) -> bool {
        exists|i: int| 0 <= i < self.columns.len() && (#[trigger] self.columns[i]).identity
    }

    /// What keeps the table from being replicated, if anything does.
    pub open spec fn fault(self) -> Option<TableValidationErrorKind> {
        if self.identity == "n"@ {
            Some(TableValidationErrorKind::ReplicaIdentityNothing)
        } else if self.full_identity() || self.has_identity() {
            None
        } else {
            Some(TableValidationErrorKind::NoIdentityColumns)
        }
    }
}

impl Table {
    /// Whether the replica identity is FULL.
    pub fn is_identity_full(&self) -> (b: bool)
        ensures
            b == self@.full_identity(),
    {
        str_eq(self.identity.identity.as_str(), "f")
    }

    /// Checks that the table's rows can be told apart.
    pub fn valid(&self) -> (out: Result<(), TableValidationError>)
        ensures
            match out {
                Ok(_) => self@.fault() is None,
                Err(e) => self@.fault() == Some(e.kind) && e.table_name@ == self.table@.text(),
            },
    {
        if str_eq(self.identity.identity.as_str(), "n") {
            return Err(
                TableValidationError {
                    table_name: self.table.to_text(),
                    kind: TableValidationErrorKind::ReplicaIdentityNothing,
                },
            );
        }
        if self.is_identity_full() {
            return Ok(());
        }
        let mut i: usize = 0;
        while i < self.columns.len()
            invariant
                i <= self.columns.len(),
                self.identity.identity@ != "n"@,
                !self@.full_identity(),
                forall|j: int| 0 <= j < i ==> !(#[trigger] self.columns@[j]).identity,
            decreases self.columns.len() - i,
        {
            if self.columns[i].identity {
                assert(self@.columns[i as int].identity);
                return Ok(());
            }
            i += 1;
        }
        Err(
            TableValidationError {
                table_name: self.table.to_text(),
                kind: TableValidationErrorKind::NoIdentityColumns,
            },
        )
    }

    fn names(&self) -> (out: Vec<String>)
        ensures
            texts(out@) == quoted_names(self.columns@),
    {
        let mut out: Vec<String> = Vec::new();
        let mut i: usize = 0;
        while i < self.columns.len()
            invariant
                i <= self.columns.len(),
                texts(out@) == quoted_names(self.columns@).take(i as int),
            decreases self.columns.len() - i,
        {
            let ghost before = texts(out@);
            let ghost all = quoted_names(self.columns@);
            out.push(quote(self.columns[i].name.as_str()));
            assert(texts(out@) =~= before.push(all[i as int]));
            assert(all.take(i + 1) =~= all.take(i as int).push(all[i as int]));
            i += 1;
        }
        assert(quoted_names(self.columns@).take(self.columns@.len() as int) =~= quoted_names(
            self.columns@,
        ));
        out
    }

    /// The statement that inserts a whole row.
    pub fn insert(&self) -> (out: String)
        ensures
            out@ == self@.insert_sql(),
    {
        let ghost all = placeholders(self.columns@.len());
        let mut values: Vec<String> = Vec::new();
        let mut i: usize = 0;
        while i < self.columns.len()
            invariant
                i <= self.columns.len(),
                all == placeholders(self.columns@.len()),
                texts(values@) == all.take(i as int),
            decreases self.columns.len() - i,
        {
            let ghost before = texts(values@);
            values.push(placeholder_string(i as u128 + 1));
            assert(texts(values@) =~= before.push(all[i as int]));
            assert(all.take(i + 1) =~= all.take(i as int).push(all[i as int]));
            i += 1;
        }
        assert(all.take(self.columns@.len() as int) =~= all);
        let mut out: String = "INSERT INTO ".to_owned();
        out.append(self.table.destination().as_str());
        out.append(" (");
        out.append(join(&self.names(), ", ").as_str());
        out.append(") VALUES (");
        out.append(join(&values, ", ").as_str());
        out.append(")");
        out
    }

    fn identity_column_names(&self) -> (out: Vec<String>)
        ensures
            texts(out@) == identity_names(self.columns@),
    {
        let mut out: Vec<String> = Vec::new();
        let mut i: usize = 0;
        assert(texts(out@) =~= identity_names(self.columns@.take(0)));
        while i < self.columns.len()
            invariant
                i <= self.columns.len(),
                texts(out@) == identity_names(self.columns@.take(i as int)),
            decreases self.columns.len() - i,
        {
            let ghost before = texts(out@);
            assert(self.columns@.take(i + 1).drop_last() =~= self.columns@.take(i as int));
            if self.columns[i].identity {
                out.push(quote(self.columns[i].name.as_str()));
                assert(texts(out@) =~= before.push(quoted(self.columns@[i as int].name@)));
            }
            i += 1;
        }
        assert(self.columns@.take(self.columns@.len() as int) =~= self.columns@);
        out
    }

    fn positioned_equations(&self, identity: bool) -> (out: Vec<String>)
        ensures
            texts(out@) == positioned(self.columns@, identity),
    {
        let mut out: Vec<String> = Vec::new();
        let mut i: usize = 0;
        assert(texts(out@) =~= positioned(self.columns@.take(0), identity));
        while i < self.columns.len()
            invariant
                i <= self.columns.len(),
                texts(out@) == positioned(self.columns@.take(i as int), identity),
            decreases self.columns.len() - i,
        {
            let ghost before = texts(out@);
            assert(self.columns@.take(i + 1).drop_last() =~= self.columns@.take(i as int));
            if self.columns[i].identity == identity {
                out.push(equation_string(self.columns[i].name.as_str(), i as u128 + 1));
                assert(texts(out@) =~= before.push(
                    equation(self.columns@[i as int].name@, (i + 1) as nat),
                ));
            }
            i += 1;
        }
        assert(self.columns@.take(self.columns@.len() as int) =~= self.columns@);
        out
    }

    /// The statement that inserts a whole row or overwrites the one there.
    pub fn upsert(&self) -> (out: String)
        ensures
            out@ == self@.upsert_sql(),
    {
        let set: Vec<String> = self.positioned_equations(false);
        let mut out: String = self.insert();
        out.append(" ON CONFLICT (");
        out.append(join(&self.identity_column_names(), ", ").as_str());
        out.append(")");
        assert(set@.len() == positioned(self.columns@, false).len());
        if set.len() == 0 {
            out.append(" DO NOTHING");
        } else {
            out.append(" DO UPDATE SET ");
            out.append(join(&set, ", ").as_str());
        }
        out
    }

    /// The statement that updates a row from a whole row.
    pub fn update(&self) -> (out: String)
        ensures
            out@ == self@.update_sql(),
    {
        let mut out: String = "UPDATE ".to_owned();
        out.append(self.table.destination().as_str());
        out.append(" SET ");
        out.append(join(&self.positioned_equations(false), ", ").as_str());
        out.append(" WHERE ");
        out.append(join(&self.positioned_equations(true), " AND ").as_str());
        out
    }

    /// The statement that deletes a row by its identity.
    pub fn delete(&self) -> (out: String)
        ensures
            out@ == self@.delete_sql(),
    {
        let mut parts: Vec<String> = Vec::new();
        let mut i: usize = 0;
        assert(texts(parts@) =~= renumbered(self.columns@.take(0)));
        while i < self.columns.len()
            invariant
                i <= self.columns.len(),
                parts.len() <= i,
                texts(parts@) == renumbered(self.columns@.take(i as int)),
            decreases self.columns.len() - i,
        {
            let ghost before = texts(parts@);
            assert(self.columns@.take(i + 1).drop_last() =~= self.columns@.take(i as int));
            if self.columns[i].identity {
                let n: usize = parts.len() + 1;
                parts.push(equation_string(self.columns[i].name.as_str(), n as u128));
                assert(texts(parts@) =~= before.push(
                    equation(self.columns@[i as int].name@, n as nat),
                ));
            }
            i += 1;
        }
        assert(self.columns@.take(self.columns@.len() as int) =~= self.columns@);
        let mut out: String = "DELETE FROM ".to_owned();
        out.append(self.table.destination().as_str());
        out.append(" WHERE ");
        out.append(join(&parts, " AND ").as_str());
        out
    }

    /// The statement that updates the columns that have a value.
    pub fn update_partial(&self, present: &NonIdentityColumnsPresence) -> (out: String)
        ensures
            out@ == self@.update_partial_sql(present@),
    {
        let mut set: Vec<String> = Vec::new();
        let mut find: Vec<String> = Vec::new();
        let mut i: usize = 0;
        let mut k: usize = 0;
        let mut n: usize = 0;
        assert(texts(set@) =~= present_equations(self.columns@.take(0), present@, false));
        assert(texts(find@) =~= present_equations(self.columns@.take(0), present@, true));
        while i < self.columns.len()
            invariant
                i <= self.columns.len(),
                k <= i,
                n <= i,
                k == non_identity_count(self.columns@.take(i as int)),
                n == present_count(self.columns@.take(i as int), present@),
                texts(set@) == present_equations(self.columns@.take(i as int), present@, false),
                texts(find@) == present_equations(self.columns@.take(i as int), present@, true),
            decreases self.columns.len() - i,
        {
            let ghost before_set = texts(set@);
            let ghost before_find = texts(find@);
            let ghost next = self.columns@.take(i + 1);
            assert(next.drop_last() =~= self.columns@.take(i as int));
            let name: &str = self.columns[i].name.as_str();
            if self.columns[i].identity {
                n += 1;
                find.push(equation_string(name, n as u128));
                assert(texts(find@) =~= before_find.push(equation(name@, n as nat)));
            } else {
                if present.is_set(k) {
                    n += 1;
                    set.push(equation_string(name, n as u128));
                    assert(texts(set@) =~= before_set.push(equation(name@, n as nat)));
                }
                k += 1;
            }
            i += 1;
        }
        assert(self.columns@.take(self.columns@.len() as int) =~= self.columns@);
        let mut out: String = "UPDATE ".to_owned();
        out.append(self.table.destination().as_str());
        out.append(" SET ");
        out.append(join(&set, ", ").as_str());
        out.append(" WHERE ");
        out.append(join(&find, " AND ").as_str());
        out
    }

    fn one_row_clause(&self) -> (out: String)
        ensures
            out@ == self@.one_row(),
    {
        let ghost all = compared(self.columns@);
        let mut parts: Vec<String> = Vec::new();
        let mut i: usize = 0;
        while i < self.columns.len()
            invariant
                i <= self.columns.len(),
                all == compared(self.columns@),
                texts(parts@) == all.take(i as int),
            decreases self.columns.len() - i,
        {
            let ghost before = texts(parts@);
            parts.push(sameness_string(self.columns[i].name.as_str(), i as u128 + 1));
            assert(texts(parts@) =~= before.push(all[i as int]));
            assert(all.take(i + 1) =~= all.take(i as int).push(all[i as int]));
            i += 1;
        }
        assert(all.take(self.columns@.len() as int) =~= all);
        let mut out: String = " WHERE ctid = (SELECT ctid FROM ".to_owned();
        out.append(self.table.destination().as_str());
        out.append(" WHERE ");
        out.append(join(&parts, " AND ").as_str());
        out.append(" LIMIT 1)");
        out
    }

    /// The statement that deletes one row that is the same as a given one.
    pub fn delete_full_identity(&self) -> (out: String)
        ensures
            out@ == self@.delete_full_identity_sql(),
    {
        let mut out: String = "DELETE FROM ".to_owned();
        out.append(self.table.destination().as_str());
        out.append(self.one_row_clause().as_str());
        out
    }

    /// The statement that updates one row that is the same as a given one.
    pub fn update_full_identity(&self) -> (out: String)
        ensures
            out@ == self@.update_full_identity_sql(),
    {
        let ghost all = assigned_behind(self.columns@);
        let count: usize = self.columns.len();
        let mut parts: Vec<String> = Vec::new();
        let mut i: usize = 0;
        while i < count
            invariant
                i <= count,
                count == self.columns.len(),
                all == assigned_behind(self.columns@),
                texts(parts@) == all.take(i as int),
            decreases count - i,
        {
            let ghost before = texts(parts@);
            parts.push(equation_string(self.columns[i].name.as_str(), count as u128 + i as u128 + 1));
            assert(texts(parts@) =~= before.push(all[i as int]));
            assert(all.take(i + 1) =~= all.take(i as int).push(all[i as int]));
            i += 1;
        }
        assert(all.take(self.columns@.len() as int) =~= all);
        let mut out: String = "UPDATE ".to_owned();
        out.append(self.table.destination().as_str());
        out.append(" SET ");
        out.append(join(&parts, ", ").as_str());
        out.append(self.one_row_clause().as_str());
        out
    }

    /// The statement that updates the columns that have a value, in one row that
    /// is the same as a given one.
    pub fn update_full_identity_partial_set(&self, present: &NonIdentityColumnsPresence) -> (out:
        String)
        ensures
            out@ == self@.update_full_identity_partial_set_sql(present@),
    {
        let count: usize = self.columns.len();
        let mut set: Vec<String> = Vec::new();
        let mut i: usize = 0;
        let mut k: usize = 0;
        let mut n: usize = 0;
        assert(texts(set@) =~= present_behind(self.columns@.take(0), present@, count as nat));
        while i < count
            invariant
                i <= count,
                count == self.columns.len(),
                k <= i,
                n <= i,
                k == non_identity_count(self.columns@.take(i as int)),
                n == present_count(self.columns@.take(i as int), present@),
                texts(set@) == present_behind(
                    self.columns@.take(i as int),
                    present@,
                    count as nat,
                ),
            decreases count - i,
        {
            let ghost before = texts(set@);
            let ghost next = self.columns@.take(i + 1);
            assert(next.drop_last() =~= self.columns@.take(i as int));
            let name: &str = self.columns[i].name.as_str();
            let identity: bool = self.columns[i].identity;
            if identity || present.is_set(k) {
                n += 1;
                set.push(equation_string(name, count as u128 + n as u128));
                assert(texts(set@) =~= before.push(equation(name@, (count + n) as nat)));
            }
            if !identity {
                k += 1;
            }
            i += 1;
        }
        assert(self.columns@.take(self.columns@.len() as int) =~= self.columns@);
        let mut out: String = "UPDATE ".to_owned();
        out.append(self.table.destination().as_str());
        out.append(" SET ");
        out.append(join(&set, ", ").as_str());
        out.append(self.one_row_clause().as_str());
        out
    }

    /// The statement that inserts a whole row unless it is there.
    pub fn upsert_full_identity(&self) -> (out: String)
        ensures
            out@ == self@.upsert_full_identity_sql(),
    {
        let mut out: String = self.insert();
        out.append(" ON CONFLICT DO NOTHING");
        out
    }

    /// The table's schema and name.
    pub fn key(&self) -> (out: Key)
        ensures
            out@ == (KeyView { schema: self.table.schema@, name: self.table.name@ }),
    {
        Key { schema: self.table.schema.clone(), name: self.table.name.clone() }
    }
}

} // verus!
