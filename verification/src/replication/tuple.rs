//! Rows as they come in the replication stream, and the messages that apply
//! them.

use vstd::prelude::*;
use vstd::string::StringSliceAdditionalSpecFns;
use vstd::utf8::valid_utf8;

verus! {

/// An object identifier of Postgres.
#[derive(Debug, Clone, Copy, PartialEq, Eq, Structural)]
pub struct Oid(pub u32);

/// How a value is encoded.
#[derive(Debug, Clone, Copy, PartialEq, Eq, Structural)]
pub enum Format {
    Text,
    Binary,
}

/// What stands for a column in a row of the stream.
#[derive(Debug, Clone, Copy, PartialEq, Eq, Structural)]
pub enum Identifier {
    /// A value.
    Format(Format),
    /// NULL.
    Null,
    /// A value stored out of line that did not change and is not sent.
    Toasted,
}

/// A column of a row.
#[derive(Debug)]
pub struct Column {
    pub identifier: Identifier,
    pub len: i32,
    pub data: Vec<u8>,
}

/// The contents of a [`Column`].
#[verifier::ext_equal]
pub struct ColumnView {
    pub identifier: Identifier,
    pub len: i32,
    pub data: Seq<u8>,
}

impl View for Column {
    type V = ColumnView;

    open spec fn view(&self) -> ColumnView {
        ColumnView { identifier: self.identifier, len: self.len, data: self.data@ }
    }
}

/// Copies bytes.
pub fn copy_bytes(bytes: &Vec<u8>) -> (out: Vec<u8>)
    ensures
        out@ == bytes@,
{
    let mut out: Vec<u8> = Vec::new();
    let mut i: usize = 0;
    while i < bytes.len()
        invariant
            i <= bytes.len(),
            out@ == bytes@.take(i as int),
        decreases bytes.len() - i,
    {
        out.push(bytes[i]);
        i += 1;
    }
    assert(bytes@.take(bytes@.len() as int) =~= bytes@);
    out
}

impl Column {
    /// A copy of the column.
    pub fn copy(&self) -> (out: Column)
        ensures
            out@ == self@,
    {
        Column { identifier: self.identifier, len: self.len, data: copy_bytes(&self.data) }
    }

    /// A column that is NULL.
    pub fn null() -> (out: Column)
        ensures
            out@ == null_column(),
    {
        Column { identifier: Identifier::Null, len: 0, data: Vec::new() }
    }
}

/// A column that is NULL.
pub open spec fn null_column() -> ColumnView {
    ColumnView { identifier: Identifier::Null, len: 0, data: Seq::empty() }
}

/// A row, its columns in the table's order.
#[derive(Debug)]
pub struct TupleData {
    pub columns: Vec<Column>,
}

/// Each column of a row.
pub open spec fn column_views(v: Seq<Column>) -> Seq<ColumnView> {
    v.map_values(|c: Column| c@)
}

impl View for TupleData {
    type V = Seq<ColumnView>;

    open spec fn view(&self) -> Seq<ColumnView> {
        column_views(self.columns@)
    }
}

/// Whether any column is an unchanged out-of-line value.
pub open spec fn some_toasted(row: Seq<ColumnView>) -> bool {
    exists|i: int| 0 <= i < row.len() && (#[trigger] row[i]).identifier == Identifier::Toasted
}

/// Whether every column is an unchanged out-of-line value.
pub open spec fn only_toasted(row: Seq<ColumnView>) -> bool {
    forall|i: int| 0 <= i < row.len() ==> (#[trigger] row[i]).identifier == Identifier::Toasted
}

/// The columns of a row whose value was sent.
pub open spec fn sent_columns(row: Seq<ColumnView>) -> Seq<ColumnView> {
    row.filter(|c: ColumnView| c.identifier != Identifier::Toasted)
}

/// The columns of a row that are not NULL.
pub open spec fn non_null_columns(row: Seq<ColumnView>) -> Seq<ColumnView> {
    row.filter(|c: ColumnView| c.identifier != Identifier::Null)
}

/// A row with each unchanged out-of-line value taken from the old row.
pub open spec fn filled(new: Seq<ColumnView>, old: Seq<ColumnView>) -> Seq<ColumnView> {
    Seq::new(
        new.len(),
        |i: int|
            if new[i].identifier == Identifier::Toasted {
                old[i]
            } else {
                new[i]
            },
    )
}

/// A parameter of a statement.
#[derive(Debug)]
pub struct Parameter {
    pub format: Format,
    pub data: Vec<u8>,
}

/// The contents of a [`Parameter`].
#[verifier::ext_equal]
pub struct ParameterView {
    pub format: Format,
    pub data: Seq<u8>,
}

impl View for Parameter {
    type V = ParameterView;

    open spec fn view(&self) -> ParameterView {
        ParameterView { format: self.format, data: self.data@ }
    }
}

/// `std::str::from_utf8` reads bytes as text. It succeeds exactly where they are
/// valid UTF-8, and the text is encoded by those bytes.
#[verifier::external_body]
pub(crate) fn read_utf8(bytes: &[u8]) -> (text: Option<&str>)
    ensures
        match text {
            Some(s) => valid_utf8(bytes@) && s.spec_bytes() == bytes@,
            None => !valid_utf8(bytes@),
        },
{
    std::str::from_utf8(bytes).ok()
}

impl Parameter {
    /// The value as text, where it is sent as text.
    pub fn text(&self) -> (out: Option<&str>)
        ensures
            match out {
                Some(s) => self.format == Format::Text && valid_utf8(self.data@) && s.spec_bytes()
                    == self.data@,
                None => self.format != Format::Text || !valid_utf8(self.data@),
            },
    {
        match self.format {
            Format::Text => read_utf8(self.data.as_slice()),
            Format::Binary => None,
        }
    }

    /// The bytes of the value.
    pub fn data(&self) -> (out: &Vec<u8>)
        ensures
            *out == self.data,
    {
        &self.data
    }
}

/// Parameters for a prepared statement. A NULL has no value.
#[derive(Debug)]
pub struct Bind {
    pub statement: String,
    pub parameters: Vec<Option<Parameter>>,
}

/// The contents of a [`Bind`].
#[verifier::ext_equal]
pub struct BindView {
    pub statement: Seq<char>,
    pub parameters: Seq<Option<ParameterView>>,
}

/// The contents of a parameter, where it has a value.
pub open spec fn parameter_view(p: Option<Parameter>) -> Option<ParameterView> {
    match p {
        Some(p) => Some(p@),
        None => None,
    }
}

impl View for Bind {
    type V = BindView;

    open spec fn view(&self) -> BindView {
        BindView {
            statement: self.statement@,
            parameters: self.parameters@.map_values(|p: Option<Parameter>| parameter_view(p)),
        }
    }
}

/// The parameter that a column becomes. An unchanged out-of-line value has no
/// bytes of its own.
pub open spec fn as_parameter(c: ColumnView) -> Option<ParameterView> {
    match c.identifier {
        Identifier::Null => None,
        Identifier::Format(format) => Some(ParameterView { format, data: c.data }),
        Identifier::Toasted => Some(ParameterView { format: Format::Text, data: c.data }),
    }
}

/// The parameters that a row becomes: one for each column, in order.
pub open spec fn bind_of(row: Seq<ColumnView>, statement: Seq<char>) -> BindView {
    BindView { statement, parameters: row.map_values(|c: ColumnView| as_parameter(c)) }
}

impl Bind {
    /// The format of a parameter, where there is one that is not NULL.
    pub fn parameter_format(&self, i: usize) -> (out: Option<Format>)
        ensures
            out == if i < self@.parameters.len() {
                match self@.parameters[i as int] {
                    Some(p) => Some(p.format),
                    None => None,
                }
            } else {
                None
            },
    {
        if i < self.parameters.len() {
            match &self.parameters[i] {
                Some(p) => Some(p.format),
                None => None,
            }
        } else {
            None
        }
    }

    /// A parameter, where there is one.
    pub fn parameter(&self, i: usize) -> (out: Option<Option<&Parameter>>)
        ensures
            match out {
                Some(Some(p)) => i < self@.parameters.len() && self@.parameters[i as int] == Some(
                    p@,
                ),
                Some(None) => i < self@.parameters.len() && self@.parameters[i as int] is None,
                None => i >= self@.parameters.len(),
            },
    {
        if i < self.parameters.len() {
            match &self.parameters[i] {
                Some(p) => Some(Some(p)),
                None => Some(None),
            }
        } else {
            None
        }
    }

    /// A copy of the message.
    pub fn copy(&self) -> (out: Bind)
        ensures
            out@ == self@,
    {
        let mut parameters: Vec<Option<Parameter>> = Vec::new();
        let mut i: usize = 0;
        while i < self.parameters.len()
            invariant
                i <= self.parameters.len(),
                parameters@.len() == i,
                forall|j: int|
                    0 <= j < i ==> parameter_view(#[trigger] parameters@[j]) == parameter_view(
                        self.parameters@[j],
                    ),
            decreases self.parameters.len() - i,
        {
            match &self.parameters[i] {
                Some(p) => {
                    parameters.push(
                        Some(Parameter { format: p.format, data: copy_bytes(&p.data) }),
                    );
                },
                None => {
                    parameters.push(None);
                },
            }
            i += 1;
        }
        let out: Bind = Bind { statement: self.statement.clone(), parameters };
        assert(out@ =~= self@);
        out
    }
}

impl TupleData {
    /// A copy of the row.
    pub fn copy(&self) -> (out: TupleData)
        ensures
            out@ == self@,
    {
        let mut columns: Vec<Column> = Vec::new();
        let mut i: usize = 0;
        while i < self.columns.len()
            invariant
                i <= self.columns.len(),
                column_views(columns@) == self@.take(i as int),
            decreases self.columns.len() - i,
        {
            let ghost before = column_views(columns@);
            columns.push(self.columns[i].copy());
            assert(column_views(columns@) =~= before.push(self@[i as int]));
            assert(self@.take(i + 1) =~= self@.take(i as int).push(self@[i as int]));
            i += 1;
        }
        assert(self@.take(self@.len() as int) =~= self@);
        TupleData { columns }
    }

    /// The row as the parameters of a prepared statement.
    pub fn to_bind(&self, statement: &str) -> (out: Bind)
        ensures
            out@ == bind_of(self@, statement@),
    {
        let mut parameters: Vec<Option<Parameter>> = Vec::new();
        let mut i: usize = 0;
        while i < self.columns.len()
            invariant
                i <= self.columns.len(),
                parameters@.len() == i,
                forall|j: int|
                    0 <= j < i ==> parameter_view(#[trigger] parameters@[j]) == as_parameter(
                        self@[j],
                    ),
            decreases self.columns.len() - i,
        {
            let column: &Column = &self.columns[i];
            match column.identifier {
                Identifier::Null => {
                    parameters.push(None);
                },
                Identifier::Format(format) => {
                    parameters.push(Some(Parameter { format, data: copy_bytes(&column.data) }));
                },
                Identifier::Toasted => {
                    parameters.push(
                        Some(Parameter { format: Format::Text, data: copy_bytes(&column.data) }),
                    );
                },
            }
            i += 1;
        }
        let out: Bind = Bind { statement: statement.to_owned(), parameters };
        assert(out@ =~= bind_of(self@, statement@));
        out
    }

    /// Whether any column is an unchanged out-of-line value.
    pub fn has_toasted(&self) -> (b: bool)
        ensures
            b == some_toasted(self@),
    {
        let mut i: usize = 0;
        while i < self.columns.len()
            invariant
                i <= self.columns.len(),
                forall|j: int| 0 <= j < i ==> (#[trigger] self@[j]).identifier != Identifier::Toasted,
            decreases self.columns.len() - i,
        {
            if self.columns[i].identifier == Identifier::Toasted {
                assert(self@[i as int].identifier == Identifier::Toasted);
                return true;
            }
            i += 1;
        }
        false
    }

    /// Whether every column is an unchanged out-of-line value.
    pub fn all_toasted(&self) -> (b: bool)
        ensures
            b == only_toasted(self@),
    {
        let mut i: usize = 0;
        while i < self.columns.len()
            invariant
                i <= self.columns.len(),
                forall|j: int| 0 <= j < i ==> (#[trigger] self@[j]).identifier == Identifier::Toasted,
            decreases self.columns.len() - i,
        {
            if self.columns[i].identifier != Identifier::Toasted {
                assert(self@[i as int].identifier != Identifier::Toasted);
                return false;
            }
            i += 1;
        }
        true
    }

    /// The row with each unchanged out-of-line value taken from the old row, where
    /// both have the same columns.
    pub fn fill_toasted_from(&self, old: &TupleData) -> (out: Option<TupleData>)
        ensures
            match out {
                Some(t) => self@.len() == old@.len() && t@ == filled(self@, old@),
                None => self@.len() != old@.len(),
            },
    {
        if self.columns.len() != old.columns.len() {
            return None;
        }
        let mut columns: Vec<Column> = Vec::new();
        let mut i: usize = 0;
        while i < self.columns.len()
            invariant
                i <= self.columns.len(),
                self.columns@.len() == old.columns@.len(),
                column_views(columns@) == filled(self@, old@).take(i as int),
            decreases self.columns.len() - i,
        {
            let ghost before = column_views(columns@);
            let ghost all = filled(self@, old@);
            if self.columns[i].identifier == Identifier::Toasted {
                columns.push(old.columns[i].copy());
            } else {
                columns.push(self.columns[i].copy());
            }
            assert(column_views(columns@) =~= before.push(all[i as int]));
            assert(all.take(i + 1) =~= all.take(i as int).push(all[i as int]));
            i += 1;
        }
        assert(filled(self@, old@).take(self@.len() as int) =~= filled(self@, old@));
        Some(TupleData { columns })
    }

    /// The columns whose value was sent.
    pub fn partial(&self) -> (out: TupleData)
        ensures
            out@ == sent_columns(self@),
    {
        let ghost keep = |c: ColumnView| c.identifier != Identifier::Toasted;
        let mut columns: Vec<Column> = Vec::new();
        let mut i: usize = 0;
        assert(column_views(columns@) =~= self@.take(0).filter(keep)) by {
            reveal(Seq::filter);
        }
        while i < self.columns.len()
            invariant
                i <= self.columns.len(),
                keep == (|c: ColumnView| c.identifier != Identifier::Toasted),
                column_views(columns@) == self@.take(i as int).filter(keep),
            decreases self.columns.len() - i,
        {
            let ghost before = column_views(columns@);
            if self.columns[i].identifier != Identifier::Toasted {
                columns.push(self.columns[i].copy());
                assert(column_views(columns@) =~= before.push(self@[i as int]));
            }
            proof {
                assert(self@.take(i + 1) =~= self@.take(i as int).push(self@[i as int]));
                self@.take(i as int).lemma_filter_push(self@[i as int], keep);
            }
            i += 1;
        }
        assert(self@.take(self@.len() as int) =~= self@);
        TupleData { columns }
    }

    /// The columns that are not NULL.
    pub fn non_null(&self) -> (out: TupleData)
        ensures
            out@ == non_null_columns(self@),
    {
        let ghost keep = |c: ColumnView| c.identifier != Identifier::Null;
        let mut columns: Vec<Column> = Vec::new();
        let mut i: usize = 0;
        assert(column_views(columns@) =~= self@.take(0).filter(keep)) by {
            reveal(Seq::filter);
        }
        while i < self.columns.len()
            invariant
                i <= self.columns.len(),
                keep == (|c: ColumnView| c.identifier != Identifier::Null),
                column_views(columns@) == self@.take(i as int).filter(keep),
            decreases self.columns.len() - i,
        {
            let ghost before = column_views(columns@);
            if self.columns[i].identifier != Identifier::Null {
                columns.push(self.columns[i].copy());
                assert(column_views(columns@) =~= before.push(self@[i as int]));
            }
            proof {
                assert(self@.take(i + 1) =~= self@.take(i as int).push(self@[i as int]));
                self@.take(i as int).lemma_filter_push(self@[i as int], keep);
            }
            i += 1;
        }
        assert(self@.take(self@.len() as int) =~= self@);
        TupleData { columns }
    }

    /// This row followed by another.
    pub fn followed_by(&self, other: &TupleData) -> (out: TupleData)
        ensures
            out@ == self@ + other@,
    {
        let mut out: TupleData = self.copy();
        let mut rest: TupleData = other.copy();
        let ghost front = out.columns@;
        let ghost back = rest.columns@;
        out.columns.append(&mut rest.columns);
        assert(out@ =~= column_views(front) + column_views(back));
        out
    }
}

/// A row that was inserted.
#[derive(Debug)]
pub struct Insert {
    pub oid: Oid,
    pub tuple_data: TupleData,
}

/// What an update says of the row before it.
#[derive(Debug)]
pub enum UpdateIdentity {
    /// The old key: the identity columns changed.
    Key(TupleData),
    /// The old row: the table's replica identity is FULL.
    Old(TupleData),
    /// Nothing: the identity columns did not change.
    Nothing,
}

/// A row that was updated.
#[derive(Debug)]
pub struct Update {
    pub oid: Oid,
    pub identity: UpdateIdentity,
    pub new: TupleData,
}

impl Update {
    /// The parameters of an update that finds its row by every column of the old
    /// row: the old row first, the new one behind it.
    pub fn full_identity_bind_tuple(find: &TupleData, set: &TupleData) -> (out: TupleData)
        ensures
            out@ == find@ + set@,
    {
        find.followed_by(set)
    }
}

/// A row that was deleted.
#[derive(Debug)]
pub struct Delete {
    pub oid: Oid,
    pub key: Option<TupleData>,
    pub old: Option<TupleData>,
}

impl Delete {
    /// The columns of the key, where there is one. The columns that are no part
    /// of it are sent as NULL.
    pub fn key_non_null(&self) -> (out: Option<TupleData>)
        ensures
            match (self.key, out) {
                (Some(key), Some(t)) => t@ == non_null_columns(key@),
                (None, None) => true,
                _ => false,
            },
    {
        match &self.key {
            Some(key) => Some(key.non_null()),
            None => None,
        }
    }
}

} // verus!
