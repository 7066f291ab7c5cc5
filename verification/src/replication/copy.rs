//! Copies the rows of a table out of the source.

use vstd::prelude::*;

use super::copy_statement::{is_null, CopyStatement, CopyStatementView};
use super::error::Error;
use super::move_keys::{key_condition, KeyMoveScope};
use super::parallel_sync::{moved_column, sharding_column};
use super::stream::Reply;
use super::table::{PublicationTableColumn, Table, TableView};
use crate::config::CopyFormat;
use crate::text::texts;

verus! {

/// A copy of a table.
#[derive(Debug)]
pub struct Copy {
    stmt: CopyStatement,
}

/// The names of some columns.
pub open spec fn column_names(columns: Seq<PublicationTableColumn>) -> Seq<Seq<char>> {
    columns.map_values(|c: PublicationTableColumn| c.name@)
}

/// The statements of a copy: all columns, and the rows that the table's filter
/// lets through.
pub open spec fn copy_of(table: TableView, copy_format: CopyFormat) -> CopyStatementView {
    CopyStatementView {
        table: table.table,
        columns: column_names(table.columns),
        copy_format,
        predicate: match table.null_filter_column {
            Some(column) => Some(is_null(column)),
            None => None,
        },
    }
}

/// What comes next in a copy.
#[derive(Debug, Clone, Copy, PartialEq, Eq, Structural)]
pub enum CopyProgress {
    /// Rows, to be passed on.
    Data,
    /// Nothing of interest.
    Continue,
    /// The end.
    Done,
}

/// The statements of a copy of the rows of some sharding keys.
pub open spec fn copy_of_keys(
    table: TableView,
    copy_format: CopyFormat,
    column: Seq<char>,
    keys: Seq<Seq<char>>,
) -> CopyStatementView {
    CopyStatementView {
        predicate: Some(key_condition(column, keys)),
        ..copy_of(table, copy_format)
    }
}

impl Copy {
    pub closed spec fn spec_statement(self) -> CopyStatementView {
        self.stmt@
    }

    /// The copy of the rows of a table that belong to the moving keys. The table must
    /// be one of those whose rows move.
    pub fn of_keys(table: &Table, copy_format: CopyFormat, scope: &KeyMoveScope) -> (out: Result<
        Copy,
        Error,
    >)
        ensures
            match (
                out,
                moved_column(scope.spec_tables(), table@.table.schema, table@.table.name),
            ) {
                (Ok(copy), Some(column)) => copy.spec_statement() == copy_of_keys(
                    table@,
                    copy_format,
                    column,
                    scope.moving(),
                ),
                (Err(e), None) => e is KeyMoveNoTables,
                _ => false,
            },
    {
        match sharding_column(&table.table, scope) {
            Some(column) => {
                let copy: Copy = Copy::new(table, copy_format);
                let condition: String = scope.predicate_sql(column.as_str());
                Ok(Copy { stmt: copy.stmt.with_predicate(condition) })
            },
            None => Err(Error::KeyMoveNoTables),
        }
    }

    /// The copy of a table.
    pub fn new(table: &Table, copy_format: CopyFormat) -> (out: Copy)
        ensures
            out.spec_statement() == copy_of(table@, copy_format),
    {
        let ghost all = column_names(table.columns@);
        let mut names: Vec<String> = Vec::new();
        let mut i: usize = 0;
        while i < table.columns.len()
            invariant
                i <= table.columns.len(),
                all == column_names(table.columns@),
                texts(names@) == all.take(i as int),
            decreases table.columns.len() - i,
        {
            let ghost before = texts(names@);
            names.push(table.columns[i].name.clone());
            assert(texts(names@) =~= before.push(all[i as int]));
            assert(all.take(i + 1) =~= all.take(i as int).push(all[i as int]));
            i += 1;
        }
        assert(all.take(all.len() as int) =~= all);
        let stmt: CopyStatement = CopyStatement::new(&table.table, &names, copy_format);
        match &table.null_filter_column {
            Some(column) => Copy { stmt: stmt.with_null_filter(column.as_str()) },
            None => Copy { stmt },
        }
    }

    /// The query that starts the copy. A transaction must be open, so that the copy
    /// sees the state that its replication slot starts from.
    pub fn start(&self, in_transaction: bool) -> (out: Result<String, Error>)
        ensures
            match out {
                Ok(query) => in_transaction && query@ == self.spec_statement().out_sql(),
                Err(e) => !in_transaction && e is TransactionNotStarted,
            },
    {
        if !in_transaction {
            return Err(Error::TransactionNotStarted);
        }
        Ok(self.stmt.copy_out())
    }

    /// The answer to the query that starts the copy.
    pub fn started(reply: Reply) -> (out: Result<(), Error>)
        ensures
            match (reply, out) {
                (Reply::Message(c), Ok(_)) => c == 'H',
                (Reply::Message(c), Err(Error::OutOfSync(d))) => c != 'H' && d == c,
                (Reply::Error(e), Err(Error::PgError(f))) => e == f,
                _ => false,
            },
    {
        match reply {
            Reply::Message(c) => if c == 'H' {
                Ok(())
            } else {
                Err(Error::OutOfSync(c))
            },
            Reply::Error(e) => Err(Error::PgError(e)),
        }
    }

    /// The next message of the copy.
    pub fn data(reply: Reply) -> (out: Result<CopyProgress, Error>)
        ensures
            match (reply, out) {
                (Reply::Message(c), Ok(CopyProgress::Data)) => c == 'd',
                (Reply::Message(c), Ok(CopyProgress::Continue)) => c == 'C' || c == 'c',
                (Reply::Message(c), Ok(CopyProgress::Done)) => c == 'Z',
                (Reply::Message(c), Err(Error::OutOfSync(d))) => d == c && c != 'd' && c != 'C' && c
                    != 'c' && c != 'Z',
                (Reply::Error(e), Err(Error::PgError(f))) => e == f,
                _ => false,
            },
    {
        match reply {
            Reply::Message(c) => {
                if c == 'd' {
                    Ok(CopyProgress::Data)
                } else if c == 'C' || c == 'c' {
                    Ok(CopyProgress::Continue)
                } else if c == 'Z' {
                    Ok(CopyProgress::Done)
                } else {
                    Err(Error::OutOfSync(c))
                }
            },
            Reply::Error(e) => Err(Error::PgError(e)),
        }
    }

    /// The statements of the copy.
    pub fn statement(&self) -> (out: &CopyStatement)
        ensures
            out@ == self.spec_statement(),
    {
        &self.stmt
    }
}

} // verus!
