//! Messages of the replication stream that are not rows.

use vstd::prelude::*;

use super::tuple::{ColumnView, Delete, Insert, Oid, Update, UpdateIdentity};

verus! {

/// A transaction starts.
#[derive(Debug, Clone, Copy, PartialEq, Eq, Structural)]
pub struct Begin {
    pub final_transaction_lsn: i64,
    pub commit_timestamp: i64,
    pub xid: i32,
}

/// A transaction was committed.
#[derive(Debug, Clone, Copy, PartialEq, Eq, Structural)]
pub struct Commit {
    pub flags: u8,
    pub commit_lsn: i64,
    pub end_lsn: i64,
    pub commit_timestamp: i64,
}

/// A column of a relation.
#[derive(Debug)]
pub struct RelationColumn {
    pub flag: u8,
    pub name: String,
    pub oid: Oid,
    pub type_modifier: i32,
}

/// A table that the rows behind it belong to.
#[derive(Debug)]
pub struct Relation {
    pub oid: Oid,
    pub namespace: String,
    pub name: String,
    pub replica_identity: u8,
    pub columns: Vec<RelationColumn>,
}

/// A message of the stream.
#[derive(Debug)]
pub enum XLogPayload {
    Begin(Begin),
    Commit(Commit),
    Relation(Relation),
    Insert(Insert),
    Update(Update),
    Delete(Delete),
    Other,
}

/// The part of a [`Relation`] that the subscriber reads.
pub struct RelationView {
    pub oid: u32,
    pub namespace: Seq<char>,
    pub name: Seq<char>,
}

/// The contents of an [`Insert`].
pub struct InsertView {
    pub oid: u32,
    pub row: Seq<ColumnView>,
}

/// The contents of an [`UpdateIdentity`].
pub enum IdentityView {
    Key(Seq<ColumnView>),
    Old(Seq<ColumnView>),
    Nothing,
}

/// The contents of an [`Update`].
pub struct UpdateView {
    pub oid: u32,
    pub identity: IdentityView,
    pub new: Seq<ColumnView>,
}

/// The contents of a [`Delete`].
pub struct DeleteView {
    pub oid: u32,
    pub key: Option<Seq<ColumnView>>,
    pub old: Option<Seq<ColumnView>>,
}

/// The contents of an [`XLogPayload`].
pub enum PayloadView {
    Begin(Begin),
    Commit(Commit),
    Relation(RelationView),
    Insert(InsertView),
    Update(UpdateView),
    Delete(DeleteView),
    Other,
}

impl View for Relation {
    type V = RelationView;

    open spec fn view(&self) -> RelationView {
        RelationView { oid: self.oid.0, namespace: self.namespace@, name: self.name@ }
    }
}

impl View for Insert {
    type V = InsertView;

    open spec fn view(&self) -> InsertView {
        InsertView { oid: self.oid.0, row: self.tuple_data@ }
    }
}

impl View for UpdateIdentity {
    type V = IdentityView;

    open spec fn view(&self) -> IdentityView {
        match self {
            UpdateIdentity::Key(t) => IdentityView::Key(t@),
            UpdateIdentity::Old(t) => IdentityView::Old(t@),
            UpdateIdentity::Nothing => IdentityView::Nothing,
        }
    }
}

impl View for Update {
    type V = UpdateView;

    open spec fn view(&self) -> UpdateView {
        UpdateView { oid: self.oid.0, identity: self.identity@, new: self.new@ }
    }
}

impl View for Delete {
    type V = DeleteView;

    open spec fn view(&self) -> DeleteView {
        DeleteView {
            oid: self.oid.0,
            key: match self.key {
                Some(t) => Some(t@),
                None => None,
            },
            old: match self.old {
                Some(t) => Some(t@),
                None => None,
            },
        }
    }
}

impl View for XLogPayload {
    type V = PayloadView;

    open spec fn view(&self) -> PayloadView {
        match self {
            XLogPayload::Begin(m) => PayloadView::Begin(*m),
            XLogPayload::Commit(m) => PayloadView::Commit(*m),
            XLogPayload::Relation(m) => PayloadView::Relation(m@),
            XLogPayload::Insert(m) => PayloadView::Insert(m@),
            XLogPayload::Update(m) => PayloadView::Update(m@),
            XLogPayload::Delete(m) => PayloadView::Delete(m@),
            XLogPayload::Other => PayloadView::Other,
        }
    }
}

/// How far the destination has got, for the source.
#[derive(Debug, Clone, Copy, PartialEq, Eq, Structural)]
pub struct StatusUpdate {
    pub last_applied: i64,
    pub last_flushed: i64,
    pub last_written: i64,
    pub system_clock: i64,
    pub reply: u8,
}

} // verus!
