//! The replication stream in bytes.

use vstd::prelude::*;
use vstd::utf8::{decode_utf8, encode_utf8, valid_utf8};

use super::messages::{Begin, Commit, Relation, RelationColumn, XLogPayload};
use super::tuple::{ColumnView, Format, Identifier, TupleData, UpdateIdentity};

verus! {

/// A value that was read, and the bytes behind it.
pub type Read<T> = Option<(T, Seq<u8>)>;

/// 256 to a power.
pub open spec fn pow256(n: nat) -> nat
    decreases n,
{
    if n == 0 {
        1
    } else {
        256 * pow256((n - 1) as nat)
    }
}

/// A number in bytes, the highest first.
pub open spec fn be_bytes(n: nat, width: nat) -> Seq<u8>
    decreases width,
{
    if width == 0 {
        Seq::empty()
    } else {
        be_bytes(n / 256, (width - 1) as nat).push((n % 256) as u8)
    }
}

/// The number that some bytes stand for, the highest first.
pub open spec fn be_value(s: Seq<u8>) -> nat
    decreases s.len(),
{
    if s.len() == 0 {
        0
    } else {
        be_value(s.drop_last()) * 256 + s.last() as nat
    }
}

pub(crate) proof fn lemma_be_round_trip(n: nat, width: nat)
    requires
        n < pow256(width),
    ensures
        be_bytes(n, width).len() == width,
        be_value(be_bytes(n, width)) == n,
    decreases width,
{
    if width > 0 {
        assert(n / 256 < pow256((width - 1) as nat)) by (nonlinear_arith)
            requires
                n < 256 * pow256((width - 1) as nat),
        ;
        lemma_be_round_trip(n / 256, (width - 1) as nat);
        assert(be_bytes(n, width).drop_last() =~= be_bytes(n / 256, (width - 1) as nat));
    }
}

pub proof fn lemma_be_value_bound(s: Seq<u8>)
    ensures
        be_value(s) < pow256(s.len()),
    decreases s.len(),
{
    if s.len() > 0 {
        lemma_be_value_bound(s.drop_last());
        assert(be_value(s) < pow256(s.len())) by (nonlinear_arith)
            requires
                be_value(s) == be_value(s.drop_last()) * 256 + s.last() as nat,
                be_value(s.drop_last()) < pow256((s.len() - 1) as nat),
                pow256(s.len()) == 256 * pow256((s.len() - 1) as nat),
                s.last() < 256,
        ;
    }
}

pub proof fn lemma_pow256()
    ensures
        pow256(1) == 0x100,
        pow256(2) == 0x1_0000,
        pow256(3) == 0x100_0000,
        pow256(4) == 0x1_0000_0000,
        pow256(5) == 0x100_0000_0000,
        pow256(6) == 0x1_0000_0000_0000,
        pow256(7) == 0x100_0000_0000_0000,
        pow256(8) == 0x1_0000_0000_0000_0000,
{
    reveal_with_fuel(pow256, 9);
}

/// A signed number of 64 bits as an unsigned one.
pub open spec fn unsigned64(v: i64) -> nat {
    if v >= 0 {
        v as nat
    } else {
        (v + 0x1_0000_0000_0000_0000) as nat
    }
}

/// An unsigned number of 64 bits as a signed one.
pub open spec fn signed64(n: nat) -> i64 {
    if n < 0x8000_0000_0000_0000 {
        n as i64
    } else {
        (n - 0x1_0000_0000_0000_0000) as i64
    }
}

/// A signed number of 32 bits as an unsigned one.
pub open spec fn unsigned32(v: i32) -> nat {
    if v >= 0 {
        v as nat
    } else {
        (v + 0x1_0000_0000) as nat
    }
}

/// An unsigned number of 32 bits as a signed one.
pub open spec fn signed32(n: nat) -> i32 {
    if n < 0x8000_0000 {
        n as i32
    } else {
        (n - 0x1_0000_0000) as i32
    }
}

/// The first byte.
pub open spec fn read_byte(s: Seq<u8>) -> Read<u8> {
    if s.len() > 0 {
        Some((s[0], s.skip(1)))
    } else {
        None
    }
}

/// The number in the first bytes.
pub open spec fn read_number(s: Seq<u8>, width: nat) -> Read<nat> {
    if s.len() >= width {
        Some((be_value(s.take(width as int)), s.skip(width as int)))
    } else {
        None
    }
}

/// A number that was written is read back.
pub proof fn lemma_number(n: nat, width: nat, rest: Seq<u8>)
    requires
        n < pow256(width),
    ensures
        read_number(be_bytes(n, width) + rest, width) == Some((n, rest)),
{
    lemma_be_round_trip(n, width);
    let s = be_bytes(n, width) + rest;
    assert(s.take(width as int) =~= be_bytes(n, width));
    assert(s.skip(width as int) =~= rest);
}

/// The position of the first zero byte, or the length.
pub open spec fn zero_at(s: Seq<u8>) -> nat
    decreases s.len(),
{
    if s.len() == 0 {
        0
    } else if s[0] == 0 {
        0
    } else {
        1 + zero_at(s.drop_first())
    }
}

/// The text before the first zero byte.
pub open spec fn read_text(s: Seq<u8>) -> Read<Seq<char>> {
    let n = zero_at(s);
    if n < s.len() && valid_utf8(s.take(n as int)) {
        Some((decode_utf8(s.take(n as int)), s.skip(n as int + 1)))
    } else {
        None
    }
}

/// A text and a zero byte.
pub open spec fn text_bytes(t: Seq<char>) -> Seq<u8> {
    encode_utf8(t).push(0)
}

/// Whether a text can be written: it holds no zero byte.
pub open spec fn writable(t: Seq<char>) -> bool {
    !encode_utf8(t).contains(0)
}

proof fn lemma_zero_at(s: Seq<u8>, rest: Seq<u8>)
    requires
        !s.contains(0),
    ensures
        zero_at(s + (seq![0u8] + rest)) == s.len(),
    decreases s.len(),
{
    let all = s + (seq![0u8] + rest);
    if s.len() > 0 {
        assert(s.contains(s[0]));
        assert(all.drop_first() =~= s.drop_first() + (seq![0u8] + rest));
        assert forall|b: u8| s.drop_first().contains(b) implies s.contains(b) by {
            let i = s.drop_first().index_of(b);
            assert(s[i + 1] == b);
        }
        lemma_zero_at(s.drop_first(), rest);
    } else {
        assert(all[0] == 0);
    }
}

pub proof fn lemma_zero_bound(s: Seq<u8>)
    ensures
        zero_at(s) <= s.len(),
        forall|i: int| 0 <= i < zero_at(s) ==> s[i] != 0,
        zero_at(s) < s.len() ==> s[zero_at(s) as int] == 0,
    decreases s.len(),
{
    if s.len() > 0 && s[0] != 0 {
        lemma_zero_bound(s.drop_first());
        assert forall|i: int| 0 <= i < zero_at(s) implies s[i] != 0 by {
            if i > 0 {
                assert(s.drop_first()[i - 1] != 0);
            }
        }
    }
}

/// A text that was written is read back.
proof fn lemma_text(t: Seq<char>, rest: Seq<u8>)
    requires
        writable(t),
    ensures
        read_text(text_bytes(t) + rest) == Some((t, rest)),
{
    let s = encode_utf8(t);
    vstd::utf8::encode_utf8_valid_utf8(t);
    vstd::utf8::encode_utf8_decode_utf8(t);
    lemma_zero_at(s, rest);
    let all = text_bytes(t) + rest;
    assert(all =~= s + (seq![0u8] + rest));
    assert(all.take(s.len() as int) =~= s);
    assert(all.skip(s.len() as int + 1) =~= rest);
}

/// A column in bytes: its kind, and its value with the value's length where it has
/// one.
pub open spec fn column_bytes(c: ColumnView) -> Seq<u8> {
    match c.identifier {
        Identifier::Null => seq![110u8],
        Identifier::Toasted => seq![117u8],
        Identifier::Format(Format::Text) => seq![116u8] + be_bytes(c.data.len(), 4) + c.data,
        Identifier::Format(Format::Binary) => seq![98u8] + be_bytes(c.data.len(), 4) + c.data,
    }
}

/// Whether a column can be written.
pub open spec fn writable_column(c: ColumnView) -> bool {
    match c.identifier {
        Identifier::Format(_) => c.len == c.data.len() && c.data.len() < 0x8000_0000,
        _ => c.len == 0 && c.data.len() == 0,
    }
}

/// The value of a column.
pub open spec fn read_value(s: Seq<u8>, format: Format) -> Read<ColumnView> {
    match read_number(s, 4) {
        Some((n, rest)) => if n < 0x8000_0000 && n <= rest.len() {
            Some(
                (
                    ColumnView {
                        identifier: Identifier::Format(format),
                        len: n as i32,
                        data: rest.take(n as int),
                    },
                    rest.skip(n as int),
                ),
            )
        } else {
            None
        },
        None => None,
    }
}

/// The first column.
pub open spec fn read_column(s: Seq<u8>) -> Read<ColumnView> {
    match read_byte(s) {
        Some((kind, rest)) => if kind == 110 {
            Some(
                (
                    ColumnView { identifier: Identifier::Null, len: 0, data: Seq::empty() },
                    rest,
                ),
            )
        } else if kind == 117 {
            Some(
                (
                    ColumnView { identifier: Identifier::Toasted, len: 0, data: Seq::empty() },
                    rest,
                ),
            )
        } else if kind == 116 {
            read_value(rest, Format::Text)
        } else if kind == 98 {
            read_value(rest, Format::Binary)
        } else {
            None
        },
        None => None,
    }
}

proof fn lemma_column(c: ColumnView, rest: Seq<u8>)
    requires
        writable_column(c),
    ensures
        read_column(column_bytes(c) + rest) == Some((c, rest)),
{
    let all = column_bytes(c) + rest;
    lemma_pow256();
    match c.identifier {
        Identifier::Format(format) => {
            let body = be_bytes(c.data.len(), 4) + (c.data + rest);
            lemma_number(c.data.len(), 4, c.data + rest);
            assert(all.skip(1) =~= body);
            let tail = c.data + rest;
            assert(tail.take(c.data.len() as int) =~= c.data);
            assert(tail.skip(c.data.len() as int) =~= rest);
        },
        _ => {
            assert(all.skip(1) =~= rest);
            assert(c.data =~= Seq::empty());
        },
    }
}

/// The columns of a row in bytes.
pub open spec fn columns_bytes(row: Seq<ColumnView>) -> Seq<u8>
    decreases row.len(),
{
    if row.len() == 0 {
        Seq::empty()
    } else {
        columns_bytes(row.drop_last()) + column_bytes(row.last())
    }
}

/// A row in bytes: the number of its columns, and the columns.
pub open spec fn row_bytes(row: Seq<ColumnView>) -> Seq<u8> {
    be_bytes(row.len(), 2) + columns_bytes(row)
}

/// Whether a row can be written.
pub open spec fn writable_row(row: Seq<ColumnView>) -> bool {
    row.len() < 0x1_0000 && forall|i: int|
        0 <= i < row.len() ==> writable_column(#[trigger] row[i])
}

/// The first columns.
pub open spec fn read_columns(s: Seq<u8>, n: nat) -> Read<Seq<ColumnView>>
    decreases n,
{
    if n == 0 {
        Some((Seq::empty(), s))
    } else {
        match read_columns(s, (n - 1) as nat) {
            Some((row, rest)) => match read_column(rest) {
                Some((c, rest)) => Some((row.push(c), rest)),
                None => None,
            },
            None => None,
        }
    }
}

/// The first row.
pub open spec fn read_row(s: Seq<u8>) -> Read<Seq<ColumnView>> {
    match read_number(s, 2) {
        Some((n, rest)) => read_columns(rest, n),
        None => None,
    }
}

proof fn lemma_columns(row: Seq<ColumnView>, rest: Seq<u8>)
    requires
        forall|i: int| 0 <= i < row.len() ==> writable_column(#[trigger] row[i]),
    ensures
        read_columns(columns_bytes(row) + rest, row.len()) == Some((row, rest)),
    decreases row.len(),
{
    if row.len() == 0 {
        assert(columns_bytes(row) + rest =~= rest);
        assert(row =~= Seq::empty());
    } else {
        let front = row.drop_last();
        let last = row.last();
        assert forall|i: int| 0 <= i < front.len() implies writable_column(#[trigger] front[i]) by {
            assert(writable_column(row[i]));
        }
        assert(writable_column(row[row.len() - 1]));
        lemma_columns(front, column_bytes(last) + rest);
        lemma_column(last, rest);
        assert(columns_bytes(row) + rest =~= columns_bytes(front) + (column_bytes(last) + rest));
        assert(front.push(last) =~= row);
    }
}

proof fn lemma_row(row: Seq<ColumnView>, rest: Seq<u8>)
    requires
        writable_row(row),
    ensures
        read_row(row_bytes(row) + rest) == Some((row, rest)),
{
    lemma_pow256();
    lemma_number(row.len(), 2, columns_bytes(row) + rest);
    lemma_columns(row, rest);
    assert(row_bytes(row) + rest =~= be_bytes(row.len(), 2) + (columns_bytes(row) + rest));
}

/// The contents of a column of a relation.
pub struct RelationColumnView {
    pub flag: u8,
    pub name: Seq<char>,
    pub oid: u32,
    pub type_modifier: i32,
}

/// The contents of a relation, with its columns.
#[verifier::ext_equal]
pub struct FullRelation {
    pub oid: u32,
    pub namespace: Seq<char>,
    pub name: Seq<char>,
    pub replica_identity: u8,
    pub columns: Seq<RelationColumnView>,
}

/// The contents of a column of a relation.
pub open spec fn relation_column(c: RelationColumn) -> RelationColumnView {
    RelationColumnView {
        flag: c.flag,
        name: c.name@,
        oid: c.oid.0,
        type_modifier: c.type_modifier,
    }
}

/// The contents of a relation.
pub open spec fn full_relation(r: Relation) -> FullRelation {
    FullRelation {
        oid: r.oid.0,
        namespace: r.namespace@,
        name: r.name@,
        replica_identity: r.replica_identity,
        columns: r.columns@.map_values(|c: RelationColumn| relation_column(c)),
    }
}

/// A column of a relation in bytes.
pub open spec fn relation_column_bytes(c: RelationColumnView) -> Seq<u8> {
    seq![c.flag] + text_bytes(c.name) + be_bytes(c.oid as nat, 4) + be_bytes(
        unsigned32(c.type_modifier),
        4,
    )
}

/// The columns of a relation in bytes.
pub open spec fn relation_columns_bytes(columns: Seq<RelationColumnView>) -> Seq<u8>
    decreases columns.len(),
{
    if columns.len() == 0 {
        Seq::empty()
    } else {
        relation_columns_bytes(columns.drop_last()) + relation_column_bytes(columns.last())
    }
}

/// The first column of a relation.
pub open spec fn read_relation_column(s: Seq<u8>) -> Read<RelationColumnView> {
    match read_byte(s) {
        Some((flag, s1)) => match read_text(s1) {
            Some((name, s2)) => match read_number(s2, 4) {
                Some((oid, s3)) => match read_number(s3, 4) {
                    Some((modifier, s4)) => Some(
                        (
                            RelationColumnView {
                                flag,
                                name,
                                oid: oid as u32,
                                type_modifier: signed32(modifier),
                            },
                            s4,
                        ),
                    ),
                    None => None,
                },
                None => None,
            },
            None => None,
        },
        None => None,
    }
}

/// The first columns of a relation.
pub open spec fn read_relation_columns(s: Seq<u8>, n: nat) -> Read<Seq<RelationColumnView>>
    decreases n,
{
    if n == 0 {
        Some((Seq::empty(), s))
    } else {
        match read_relation_columns(s, (n - 1) as nat) {
            Some((columns, rest)) => match read_relation_column(rest) {
                Some((c, rest)) => Some((columns.push(c), rest)),
                None => None,
            },
            None => None,
        }
    }
}

proof fn lemma_relation_column(c: RelationColumnView, rest: Seq<u8>)
    requires
        writable(c.name),
    ensures
        read_relation_column(relation_column_bytes(c) + rest) == Some((c, rest)),
{
    lemma_pow256();
    let s3 = be_bytes(unsigned32(c.type_modifier), 4) + rest;
    let s2 = be_bytes(c.oid as nat, 4) + s3;
    let s1 = text_bytes(c.name) + s2;
    let all = relation_column_bytes(c) + rest;
    assert(all =~= seq![c.flag] + s1);
    assert(all.skip(1) =~= s1);
    lemma_text(c.name, s2);
    lemma_number(c.oid as nat, 4, s3);
    lemma_number(unsigned32(c.type_modifier), 4, rest);
}

proof fn lemma_relation_columns(columns: Seq<RelationColumnView>, rest: Seq<u8>)
    requires
        forall|i: int| 0 <= i < columns.len() ==> writable((#[trigger] columns[i]).name),
    ensures
        read_relation_columns(relation_columns_bytes(columns) + rest, columns.len()) == Some(
            (columns, rest),
        ),
    decreases columns.len(),
{
    if columns.len() == 0 {
        assert(relation_columns_bytes(columns) + rest =~= rest);
        assert(columns =~= Seq::empty());
    } else {
        let front = columns.drop_last();
        let last = columns.last();
        assert forall|i: int| 0 <= i < front.len() implies writable((#[trigger] front[i]).name) by {
            assert(writable(columns[i].name));
        }
        assert(writable(columns[columns.len() - 1].name));
        lemma_relation_columns(front, relation_column_bytes(last) + rest);
        lemma_relation_column(last, rest);
        assert(relation_columns_bytes(columns) + rest =~= relation_columns_bytes(front) + (
        relation_column_bytes(last) + rest));
        assert(front.push(last) =~= columns);
    }
}

/// What an update says of the row before it.
pub enum OldRow {
    Key(Seq<ColumnView>),
    Old(Seq<ColumnView>),
    Nothing,
}

/// The contents of a message.
pub enum Message {
    Begin(Begin),
    Commit(Commit),
    Relation(FullRelation),
    Insert { oid: u32, row: Seq<ColumnView> },
    Update { oid: u32, identity: OldRow, new: Seq<ColumnView> },
    Delete { oid: u32, key: Option<Seq<ColumnView>>, old: Option<Seq<ColumnView>> },
    Other,
}

/// What an update says of the row before it.
pub open spec fn old_row(identity: UpdateIdentity) -> OldRow {
    match identity {
        UpdateIdentity::Key(t) => OldRow::Key(t@),
        UpdateIdentity::Old(t) => OldRow::Old(t@),
        UpdateIdentity::Nothing => OldRow::Nothing,
    }
}

/// The contents of an optional row.
pub open spec fn row_view(t: Option<TupleData>) -> Option<Seq<ColumnView>> {
    match t {
        Some(t) => Some(t@),
        None => None,
    }
}

/// The contents of a message.
pub open spec fn message_of(p: XLogPayload) -> Message {
    match p {
        XLogPayload::Begin(m) => Message::Begin(m),
        XLogPayload::Commit(m) => Message::Commit(m),
        XLogPayload::Relation(m) => Message::Relation(full_relation(m)),
        XLogPayload::Insert(m) => Message::Insert { oid: m.oid.0, row: m.tuple_data@ },
        XLogPayload::Update(m) => Message::Update {
            oid: m.oid.0,
            identity: old_row(m.identity),
            new: m.new@,
        },
        XLogPayload::Delete(m) => Message::Delete {
            oid: m.oid.0,
            key: row_view(m.key),
            old: row_view(m.old),
        },
        XLogPayload::Other => Message::Other,
    }
}

/// The old row of an update in bytes.
pub open spec fn old_row_bytes(identity: OldRow) -> Seq<u8> {
    match identity {
        OldRow::Key(row) => seq![75u8] + row_bytes(row),
        OldRow::Old(row) => seq![79u8] + row_bytes(row),
        OldRow::Nothing => Seq::empty(),
    }
}

/// A message in bytes.
pub open spec fn message_bytes(m: Message) -> Seq<u8> {
    match m {
        Message::Begin(b) => seq![66u8] + be_bytes(unsigned64(b.final_transaction_lsn), 8)
            + be_bytes(unsigned64(b.commit_timestamp), 8) + be_bytes(unsigned32(b.xid), 4),
        Message::Commit(c) => seq![67u8] + seq![c.flags] + be_bytes(unsigned64(c.commit_lsn), 8)
            + be_bytes(unsigned64(c.end_lsn), 8) + be_bytes(unsigned64(c.commit_timestamp), 8),
        Message::Relation(r) => seq![82u8] + be_bytes(r.oid as nat, 4) + text_bytes(r.namespace)
            + text_bytes(r.name) + seq![r.replica_identity] + be_bytes(r.columns.len(), 2)
            + relation_columns_bytes(r.columns),
        Message::Insert { oid, row } => seq![73u8] + be_bytes(oid as nat, 4) + seq![78u8]
            + row_bytes(row),
        Message::Update { oid, identity, new } => seq![85u8] + be_bytes(oid as nat, 4)
            + old_row_bytes(identity) + seq![78u8] + row_bytes(new),
        Message::Delete { oid, key, old } => seq![68u8] + be_bytes(oid as nat, 4) + (match (
            key,
            old,
        ) {
            (Some(row), _) => seq![75u8] + row_bytes(row),
            (None, Some(row)) => seq![79u8] + row_bytes(row),
            (None, None) => Seq::empty(),
        }),
        Message::Other => Seq::empty(),
    }
}

/// Whether a message can be written.
pub open spec fn writable_message(m: Message) -> bool {
    match m {
        Message::Begin(_) => true,
        Message::Commit(_) => true,
        Message::Relation(r) => writable(r.namespace) && writable(r.name) && r.columns.len()
            < 0x1_0000 && forall|i: int|
            0 <= i < r.columns.len() ==> writable((#[trigger] r.columns[i]).name),
        Message::Insert { oid, row } => writable_row(row),
        Message::Update { oid, identity, new } => writable_row(new) && match identity {
            OldRow::Key(row) => writable_row(row),
            OldRow::Old(row) => writable_row(row),
            OldRow::Nothing => true,
        },
        Message::Delete { oid, key, old } => match (key, old) {
            (Some(row), None) => writable_row(row),
            (None, Some(row)) => writable_row(row),
            _ => false,
        },
        Message::Other => false,
    }
}

/// A transaction's start, behind its tag.
pub open spec fn read_begin(s: Seq<u8>) -> Option<Message> {
    match read_number(s, 8) {
        Some((lsn, s1)) => match read_number(s1, 8) {
            Some((timestamp, s2)) => match read_number(s2, 4) {
                Some((xid, _)) => Some(
                    Message::Begin(
                        Begin {
                            final_transaction_lsn: signed64(lsn),
                            commit_timestamp: signed64(timestamp),
                            xid: signed32(xid),
                        },
                    ),
                ),
                None => None,
            },
            None => None,
        },
        None => None,
    }
}

/// A commit, behind its tag.
pub open spec fn read_commit(s: Seq<u8>) -> Option<Message> {
    match read_byte(s) {
        Some((flags, s1)) => match read_number(s1, 8) {
            Some((commit_lsn, s2)) => match read_number(s2, 8) {
                Some((end_lsn, s3)) => match read_number(s3, 8) {
                    Some((timestamp, _)) => Some(
                        Message::Commit(
                            Commit {
                                flags,
                                commit_lsn: signed64(commit_lsn),
                                end_lsn: signed64(end_lsn),
                                commit_timestamp: signed64(timestamp),
                            },
                        ),
                    ),
                    None => None,
                },
                None => None,
            },
            None => None,
        },
        None => None,
    }
}

/// A relation, behind its tag.
pub open spec fn read_relation(s: Seq<u8>) -> Option<Message> {
    match read_number(s, 4) {
        Some((oid, s1)) => match read_text(s1) {
            Some((namespace, s2)) => match read_text(s2) {
                Some((name, s3)) => match read_byte(s3) {
                    Some((replica_identity, s4)) => match read_number(s4, 2) {
                        Some((n, s5)) => match read_relation_columns(s5, n) {
                            Some((columns, _)) => Some(
                                Message::Relation(
                                    FullRelation {
                                        oid: oid as u32,
                                        namespace,
                                        name,
                                        replica_identity,
                                        columns,
                                    },
                                ),
                            ),
                            None => None,
                        },
                        None => None,
                    },
                    None => None,
                },
                None => None,
            },
            None => None,
        },
        None => None,
    }
}

/// A row behind a given tag.
pub open spec fn read_tagged_row(s: Seq<u8>, tag: u8) -> Read<Seq<ColumnView>> {
    match read_byte(s) {
        Some((t, rest)) => if t == tag {
            read_row(rest)
        } else {
            None
        },
        None => None,
    }
}

/// An insert, behind its tag.
pub open spec fn read_insert(s: Seq<u8>) -> Option<Message> {
    match read_number(s, 4) {
        Some((oid, s1)) => match read_tagged_row(s1, 78) {
            Some((row, _)) => Some(Message::Insert { oid: oid as u32, row }),
            None => None,
        },
        None => None,
    }
}

/// What an update says of the row before it.
pub open spec fn read_old_row(s: Seq<u8>) -> Read<OldRow> {
    match read_tagged_row(s, 75) {
        Some((row, rest)) => Some((OldRow::Key(row), rest)),
        None => match read_tagged_row(s, 79) {
            Some((row, rest)) => Some((OldRow::Old(row), rest)),
            None => Some((OldRow::Nothing, s)),
        },
    }
}

/// An update, behind its tag.
pub open spec fn read_update(s: Seq<u8>) -> Option<Message> {
    match read_number(s, 4) {
        Some((oid, s1)) => match read_old_row(s1) {
            Some((identity, s2)) => match read_tagged_row(s2, 78) {
                Some((new, _)) => Some(Message::Update { oid: oid as u32, identity, new }),
                None => None,
            },
            None => None,
        },
        None => None,
    }
}

/// A delete, behind its tag.
pub open spec fn read_delete(s: Seq<u8>) -> Option<Message> {
    match read_number(s, 4) {
        Some((oid, s1)) => match read_tagged_row(s1, 75) {
            Some((row, _)) => Some(
                Message::Delete { oid: oid as u32, key: Some(row), old: None },
            ),
            None => match read_tagged_row(s1, 79) {
                Some((row, _)) => Some(
                    Message::Delete { oid: oid as u32, key: None, old: Some(row) },
                ),
                None => None,
            },
        },
        None => None,
    }
}

/// The message in some bytes. Those of the stream that do not matter here are
/// known by their tag.
pub open spec fn read_message(s: Seq<u8>) -> Option<Message> {
    match read_byte(s) {
        Some((tag, rest)) => if tag == 66 {
            read_begin(rest)
        } else if tag == 67 {
            read_commit(rest)
        } else if tag == 82 {
            read_relation(rest)
        } else if tag == 73 {
            read_insert(rest)
        } else if tag == 85 {
            read_update(rest)
        } else if tag == 68 {
            read_delete(rest)
        } else if tag == 84 || tag == 89 || tag == 79 || tag == 77 {
            Some(Message::Other)
        } else {
            None
        },
        None => None,
    }
}

proof fn lemma_tagged_row(row: Seq<ColumnView>, tag: u8, other: u8, rest: Seq<u8>)
    requires
        writable_row(row),
        tag != other,
    ensures
        read_tagged_row(seq![tag] + row_bytes(row) + rest, tag) == Some((row, rest)),
        read_tagged_row(seq![tag] + row_bytes(row) + rest, other) is None,
{
    let all = seq![tag] + row_bytes(row) + rest;
    assert(all[0] == tag);
    assert(all.skip(1) =~= row_bytes(row) + rest);
    lemma_row(row, rest);
}

proof fn lemma_begin(b: Begin)
    ensures
        read_message(message_bytes(Message::Begin(b))) == Some(Message::Begin(b)),
{
    lemma_pow256();
    let empty = Seq::<u8>::empty();
    let s2 = be_bytes(unsigned32(b.xid), 4) + empty;
    let s1 = be_bytes(unsigned64(b.commit_timestamp), 8) + s2;
    let s0 = be_bytes(unsigned64(b.final_transaction_lsn), 8) + s1;
    let all = message_bytes(Message::Begin(b));
    assert(all =~= seq![66u8] + s0);
    assert(all.skip(1) =~= s0);
    lemma_number(unsigned64(b.final_transaction_lsn), 8, s1);
    lemma_number(unsigned64(b.commit_timestamp), 8, s2);
    lemma_number(unsigned32(b.xid), 4, empty);
}

proof fn lemma_commit(c: Commit)
    ensures
        read_message(message_bytes(Message::Commit(c))) == Some(Message::Commit(c)),
{
    lemma_pow256();
    let empty = Seq::<u8>::empty();
    let s3 = be_bytes(unsigned64(c.commit_timestamp), 8) + empty;
    let s2 = be_bytes(unsigned64(c.end_lsn), 8) + s3;
    let s1 = be_bytes(unsigned64(c.commit_lsn), 8) + s2;
    let s0 = seq![c.flags] + s1;
    let all = message_bytes(Message::Commit(c));
    assert(all =~= seq![67u8] + s0);
    assert(all.skip(1) =~= s0);
    assert(s0.skip(1) =~= s1);
    lemma_number(unsigned64(c.commit_lsn), 8, s2);
    lemma_number(unsigned64(c.end_lsn), 8, s3);
    lemma_number(unsigned64(c.commit_timestamp), 8, empty);
}

proof fn lemma_seven(
    a: Seq<u8>,
    b: Seq<u8>,
    c: Seq<u8>,
    d: Seq<u8>,
    e: Seq<u8>,
    f: Seq<u8>,
    g: Seq<u8>,
)
    ensures
        a + b + c + d + e + f + g == a + (b + (c + (d + (e + (f + g))))),
{
    assert(a + b + c + d + e + f + g =~= a + (b + (c + (d + (e + (f + g))))));
}

/// The parts of a relation, one behind the other, are read back one after another.
proof fn lemma_relation_parts(r: FullRelation)
    requires
        writable_message(Message::Relation(r)),
    ensures
        ({
            let s5 = relation_columns_bytes(r.columns);
            let s4 = be_bytes(r.columns.len(), 2) + s5;
            let s3 = seq![r.replica_identity] + s4;
            let s2 = text_bytes(r.name) + s3;
            let s1 = text_bytes(r.namespace) + s2;
            let s0 = be_bytes(r.oid as nat, 4) + s1;
            read_relation(s0) == Some(Message::Relation(r))
        }),
{
    lemma_pow256();
    let empty = Seq::<u8>::empty();
    let s5 = relation_columns_bytes(r.columns);
    let s4 = be_bytes(r.columns.len(), 2) + s5;
    let s3 = seq![r.replica_identity] + s4;
    let s2 = text_bytes(r.name) + s3;
    let s1 = text_bytes(r.namespace) + s2;
    assert(s5 + empty =~= s5);
    assert(s3.skip(1) =~= s4);
    assert(s3[0] == r.replica_identity);
    lemma_number(r.oid as nat, 4, s1);
    lemma_text(r.namespace, s2);
    lemma_text(r.name, s3);
    lemma_number(r.columns.len(), 2, s5);
    lemma_relation_columns(r.columns, empty);
}

proof fn lemma_relation(r: FullRelation)
    requires
        writable_message(Message::Relation(r)),
    ensures
        read_message(message_bytes(Message::Relation(r))) == Some(Message::Relation(r)),
{
    lemma_seven(
        seq![82u8],
        be_bytes(r.oid as nat, 4),
        text_bytes(r.namespace),
        text_bytes(r.name),
        seq![r.replica_identity],
        be_bytes(r.columns.len(), 2),
        relation_columns_bytes(r.columns),
    );
    lemma_relation_parts(r);
    let all = message_bytes(Message::Relation(r));
    let rest = be_bytes(r.oid as nat, 4) + (text_bytes(r.namespace) + (text_bytes(r.name) + (seq![
        r.replica_identity,
    ] + (be_bytes(r.columns.len(), 2) + relation_columns_bytes(r.columns)))));
    assert(all == seq![82u8] + rest);
    assert(all[0] == 82);
    assert(all.skip(1) =~= rest);
}

proof fn lemma_insert(oid: u32, row: Seq<ColumnView>)
    requires
        writable_row(row),
    ensures
        read_message(message_bytes(Message::Insert { oid, row })) == Some(
            Message::Insert { oid, row },
        ),
{
    lemma_pow256();
    let empty = Seq::<u8>::empty();
    let s1 = seq![78u8] + row_bytes(row) + empty;
    let s0 = be_bytes(oid as nat, 4) + s1;
    let all = message_bytes(Message::Insert { oid, row });
    assert(all =~= seq![73u8] + s0);
    assert(all.skip(1) =~= s0);
    lemma_number(oid as nat, 4, s1);
    lemma_tagged_row(row, 78, 75, empty);
}

proof fn lemma_update(oid: u32, identity: OldRow, new: Seq<ColumnView>)
    requires
        writable_message(Message::Update { oid, identity, new }),
    ensures
        read_message(message_bytes(Message::Update { oid, identity, new })) == Some(
            Message::Update { oid, identity, new },
        ),
{
    lemma_pow256();
    let empty = Seq::<u8>::empty();
    let s2 = seq![78u8] + row_bytes(new) + empty;
    let s1 = old_row_bytes(identity) + s2;
    let s0 = be_bytes(oid as nat, 4) + s1;
    let all = message_bytes(Message::Update { oid, identity, new });
    assert(all =~= seq![85u8] + s0);
    assert(all.skip(1) =~= s0);
    lemma_number(oid as nat, 4, s1);
    lemma_tagged_row(new, 78, 75, empty);
    lemma_tagged_row(new, 78, 79, empty);
    match identity {
        OldRow::Key(row) => {
            lemma_tagged_row(row, 75, 79, s2);
        },
        OldRow::Old(row) => {
            lemma_tagged_row(row, 79, 75, s2);
        },
        OldRow::Nothing => {
            assert(s1 =~= s2);
        },
    }
}

proof fn lemma_delete(oid: u32, key: Option<Seq<ColumnView>>, old: Option<Seq<ColumnView>>)
    requires
        writable_message(Message::Delete { oid, key, old }),
    ensures
        read_message(message_bytes(Message::Delete { oid, key, old })) == Some(
            Message::Delete { oid, key, old },
        ),
{
    lemma_pow256();
    let empty = Seq::<u8>::empty();
    let (tag, row) = match (key, old) {
        (Some(row), _) => (75u8, row),
        (None, Some(row)) => (79u8, row),
        (None, None) => (0u8, Seq::empty()),
    };
    let s1 = seq![tag] + row_bytes(row) + empty;
    let s0 = be_bytes(oid as nat, 4) + s1;
    let all = message_bytes(Message::Delete { oid, key, old });
    assert(all =~= seq![68u8] + s0);
    assert(all.skip(1) =~= s0);
    lemma_number(oid as nat, 4, s1);
    if tag == 75 {
        lemma_tagged_row(row, 75, 79, empty);
    } else {
        lemma_tagged_row(row, 79, 75, empty);
    }
}

/// A message that was written is read back as it was.
pub proof fn law_messages_are_read_back(m: Message)
    requires
        writable_message(m),
    ensures
        read_message(message_bytes(m)) == Some(m),
{
    match m {
        Message::Begin(b) => lemma_begin(b),
        Message::Commit(c) => lemma_commit(c),
        Message::Relation(r) => lemma_relation(r),
        Message::Insert { oid, row } => lemma_insert(oid, row),
        Message::Update { oid, identity, new } => lemma_update(oid, identity, new),
        Message::Delete { oid, key, old } => lemma_delete(oid, key, old),
        Message::Other => {},
    }
}

} // verus!
