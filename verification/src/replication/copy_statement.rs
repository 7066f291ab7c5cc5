//! Generates the COPY statements that move a table's data.

use vstd::prelude::*;

use super::table::{PublicationTable, PublicationTableView};
use crate::config::CopyFormat;
use crate::schema::ast::opt_text;
use crate::text::{doubled, escape_identifier, join, joined, quote, quoted, texts};

verus! {

/// The COPY statements of a table.
#[derive(Debug)]
pub struct CopyStatement {
    table: PublicationTable,
    columns: Vec<String>,
    copy_format: CopyFormat,
    /// A condition on the rows that are copied out. `COPY (SELECT ...)` takes no
    /// parameters, so its values are written out.
    predicate: Option<String>,
}

/// The contents of a [`CopyStatement`].
#[verifier::ext_equal]
pub struct CopyStatementView {
    pub table: PublicationTableView,
    pub columns: Seq<Seq<char>>,
    pub copy_format: CopyFormat,
    pub predicate: Option<Seq<char>>,
}

impl View for CopyStatement {
    type V = CopyStatementView;

    closed spec fn view(&self) -> CopyStatementView {
        CopyStatementView {
            table: self.table@,
            columns: texts(self.columns@),
            copy_format: self.copy_format,
            predicate: opt_text(self.predicate),
        }
    }
}

/// The quoted columns of a list.
pub open spec fn quoted_list(columns: Seq<Seq<char>>) -> Seq<char> {
    joined(columns.map_values(|c: Seq<char>| quoted(c)), ", "@)
}

/// `"column" IS NULL`
pub open spec fn is_null(column: Seq<char>) -> Seq<char> {
    "\""@ + doubled(column, '"') + "\" IS NULL"@
}

impl CopyStatementView {
    /// The statement that copies the rows of the table, or those that meet the
    /// condition, out of the source.
    pub open spec fn out_sql(self) -> Seq<char> {
        match self.predicate {
            Some(predicate) => "COPY (SELECT "@ + quoted_list(self.columns) + " FROM "@
                + self.table.text() + " WHERE "@ + predicate + ") TO STDOUT WITH (FORMAT "@
                + self.copy_format.spec_name() + ")"@,
            None => "COPY "@ + self.table.text() + " ("@ + quoted_list(self.columns) + ") "@
                + "TO STDOUT"@ + " WITH (FORMAT "@ + self.copy_format.spec_name() + ")"@,
        }
    }

    /// The statement that copies rows into the destination. A partition's rows go
    /// to its parent, and the rows that come have been picked already.
    pub open spec fn in_sql(self) -> Seq<char> {
        "COPY "@ + self.table.destination() + " ("@ + quoted_list(self.columns) + ") "@
            + "FROM STDIN"@ + " WITH (FORMAT "@ + self.copy_format.spec_name() + ")"@
    }
}

impl CopyStatement {
    /// The COPY statements of a table's columns.
    pub fn new(table: &PublicationTable, columns: &Vec<String>, copy_format: CopyFormat) -> (out:
        CopyStatement)
        ensures
            out@ == (CopyStatementView {
                table: table@,
                columns: texts(columns@),
                copy_format,
                predicate: None,
            }),
    {
        let mut copies: Vec<String> = Vec::new();
        let ghost all = texts(columns@);
        let mut i: usize = 0;
        while i < columns.len()
            invariant
                i <= columns.len(),
                all == texts(columns@),
                texts(copies@) == all.take(i as int),
            decreases columns.len() - i,
        {
            let ghost before = texts(copies@);
            copies.push(columns[i].clone());
            assert(texts(copies@) =~= before.push(all[i as int]));
            assert(all.take(i + 1) =~= all.take(i as int).push(all[i as int]));
            i += 1;
        }
        assert(all.take(all.len() as int) =~= all);
        CopyStatement { table: table.clone(), columns: copies, copy_format, predicate: None }
    }

    /// Copies out the rows that meet a condition only.
    pub fn with_predicate(self, predicate: String) -> (out: Self)
        ensures
            out@ == (CopyStatementView { predicate: Some(predicate@), ..self@ }),
    {
        let mut out: CopyStatement = self;
        out.predicate = Some(predicate);
        out
    }

    /// Copies out the rows only in which a column is NULL.
    pub fn with_null_filter(self, column: &str) -> (out: Self)
        ensures
            out@ == (CopyStatementView { predicate: Some(is_null(column@)), ..self@ }),
    {
        let mut predicate: String = "\"".to_owned();
        predicate.append(escape_identifier(column).as_str());
        predicate.append("\" IS NULL");
        self.with_predicate(predicate)
    }

    fn quoted_columns(&self) -> (out: String)
        ensures
            out@ == quoted_list(self@.columns),
    {
        let ghost all = self@.columns.map_values(|c: Seq<char>| quoted(c));
        let mut parts: Vec<String> = Vec::new();
        let mut i: usize = 0;
        while i < self.columns.len()
            invariant
                i <= self.columns.len(),
                all == self@.columns.map_values(|c: Seq<char>| quoted(c)),
                texts(parts@) == all.take(i as int),
            decreases self.columns.len() - i,
        {
            let ghost before = texts(parts@);
            parts.push(quote(self.columns[i].as_str()));
            assert(texts(parts@) =~= before.push(all[i as int]));
            assert(all.take(i + 1) =~= all.take(i as int).push(all[i as int]));
            i += 1;
        }
        assert(all.take(all.len() as int) =~= all);
        join(&parts, ", ")
    }

    fn copy(&self, out: bool) -> (sql: String)
        ensures
            sql@ == if out {
                "COPY "@ + self@.table.text() + " ("@ + quoted_list(self@.columns) + ") "@
                    + "TO STDOUT"@ + " WITH (FORMAT "@ + self@.copy_format.spec_name() + ")"@
            } else {
                self@.in_sql()
            },
    {
        let mut sql: String = "COPY ".to_owned();
        if out {
            sql.append(self.table.to_text().as_str());
        } else {
            sql.append(self.table.destination().as_str());
        }
        sql.append(" (");
        sql.append(self.quoted_columns().as_str());
        sql.append(") ");
        sql.append(
            if out {
                "TO STDOUT"
            } else {
                "FROM STDIN"
            },
        );
        sql.append(" WITH (FORMAT ");
        sql.append(self.copy_format.name());
        sql.append(")");
        sql
    }

    /// The statement that copies rows out of the source.
    pub fn copy_out(&self) -> (sql: String)
        ensures
            sql@ == self@.out_sql(),
    {
        match &self.predicate {
            Some(predicate) => {
                // `COPY table (...) TO STDOUT` takes no condition.
                let mut sql: String = "COPY (SELECT ".to_owned();
                sql.append(self.quoted_columns().as_str());
                sql.append(" FROM ");
                sql.append(self.table.to_text().as_str());
                sql.append(" WHERE ");
                sql.append(predicate.as_str());
                sql.append(") TO STDOUT WITH (FORMAT ");
                sql.append(self.copy_format.name());
                sql.append(")");
                sql
            },
            None => self.copy(true),
        }
    }

    /// The statement that copies rows into the destination.
    pub fn copy_in(&self) -> (sql: String)
        ensures
            sql@ == self@.in_sql(),
    {
        self.copy(false)
    }
}

/// Which rows are copied out does not change how they are copied in.
pub proof fn law_copy_in_ignores_the_condition(a: CopyStatementView, b: CopyStatementView)
    requires
        a == (CopyStatementView { predicate: a.predicate, ..b }),
    ensures
        a.in_sql() == b.in_sql(),
{
}

} // verus!
