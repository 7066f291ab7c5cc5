//! What can go wrong while a schema is dumped and restored.

use vstd::prelude::*;

use crate::text::around;

verus! {

#[derive(Debug)]
pub enum SchemaSyncError {
    NoDatabases,
    PublicationNoTables(String),
    PgDump(String),
    StmtOutOfBounds,
    MissingEntity,
    Utf8,
    /// The parser could not read the dump, or not write a statement of it.
    Parser(String),
    Backend(String),
}

/// The contents of a [`SchemaSyncError`].
pub enum SchemaSyncErrorView {
    NoDatabases,
    PublicationNoTables(Seq<char>),
    PgDump(Seq<char>),
    StmtOutOfBounds,
    MissingEntity,
    Utf8,
    Parser(Seq<char>),
    Backend(Seq<char>),
}

impl View for SchemaSyncError {
    type V = SchemaSyncErrorView;

    open spec fn view(&self) -> SchemaSyncErrorView {
        match self {
            SchemaSyncError::NoDatabases => SchemaSyncErrorView::NoDatabases,
            SchemaSyncError::PublicationNoTables(s) => SchemaSyncErrorView::PublicationNoTables(s@),
            SchemaSyncError::PgDump(s) => SchemaSyncErrorView::PgDump(s@),
            SchemaSyncError::StmtOutOfBounds => SchemaSyncErrorView::StmtOutOfBounds,
            SchemaSyncError::MissingEntity => SchemaSyncErrorView::MissingEntity,
            SchemaSyncError::Utf8 => SchemaSyncErrorView::Utf8,
            SchemaSyncError::Parser(s) => SchemaSyncErrorView::Parser(s@),
            SchemaSyncError::Backend(s) => SchemaSyncErrorView::Backend(s@),
        }
    }
}

impl SchemaSyncErrorView {
    /// The error in words.
    pub open spec fn text(self) -> Seq<char> {
        match self {
            SchemaSyncErrorView::NoDatabases => "cluster has no databases"@,
            SchemaSyncErrorView::PublicationNoTables(s) => "publication \""@ + s
                + "\" has no tables"@,
            SchemaSyncErrorView::PgDump(s) => "pg_dump: "@ + s + ""@,
            SchemaSyncErrorView::StmtOutOfBounds => "statement is out of bounds"@,
            SchemaSyncErrorView::MissingEntity => "missing entity in dump"@,
            SchemaSyncErrorView::Utf8 => "output is not valid UTF-8"@,
            SchemaSyncErrorView::Parser(s) => "parser: "@ + s + ""@,
            SchemaSyncErrorView::Backend(s) => "backend: "@ + s + ""@,
        }
    }
}

impl SchemaSyncError {
    /// The error in words.
    pub fn to_text(&self) -> (out: String)
        ensures
            out@ == self@.text(),
    {
        match self {
            SchemaSyncError::NoDatabases => "cluster has no databases".to_owned(),
            SchemaSyncError::PublicationNoTables(s) => around(
                "publication \"",
                s.as_str(),
                "\" has no tables",
            ),
            SchemaSyncError::PgDump(s) => around("pg_dump: ", s.as_str(), ""),
            SchemaSyncError::StmtOutOfBounds => "statement is out of bounds".to_owned(),
            SchemaSyncError::MissingEntity => "missing entity in dump".to_owned(),
            SchemaSyncError::Utf8 => "output is not valid UTF-8".to_owned(),
            SchemaSyncError::Parser(s) => around("parser: ", s.as_str(), ""),
            SchemaSyncError::Backend(s) => around("backend: ", s.as_str(), ""),
        }
    }
}

} // verus!
